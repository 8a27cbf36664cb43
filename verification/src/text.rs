//! Text utilities: splitting on a separator character, whitespace-delimited
//! fields, and decimal number parsing, each with an exact specification.

use vstd::prelude::*;

verus! {

use vstd::string::StrSliceExecFns;

/// Index of the first occurrence of `sep` in `s`, or `s.len()` if none.
pub open spec fn first_sep(s: Seq<char>, sep: char) -> nat
    decreases s.len(),
{
    if s.len() == 0 {
        0
    } else if s[0] == sep {
        0
    } else {
        1 + first_sep(s.drop_first(), sep)
    }
}

/// The fields of `s` split on `sep`, separators not included: one more field
/// than there are separators, and fields may be empty.
pub open spec fn split_on(s: Seq<char>, sep: char) -> Seq<Seq<char>>
    decreases s.len(),
{
    let k = first_sep(s, sep);
    if k >= s.len() {
        seq![s]
    } else {
        seq![s.take(k as int)] + split_on(s.skip(k as int + 1), sep)
    }
}

/// `first_sep` is the unique index bounded by a separator-free prefix.
proof fn lemma_first_sep_is(s: Seq<char>, sep: char, k: int)
    requires
        0 <= k <= s.len(),
        forall|m: int| 0 <= m < k ==> s[m] != sep,
        k < s.len() ==> s[k] == sep,
    ensures
        first_sep(s, sep) == k,
    decreases k,
{
    if k > 0 {
        lemma_first_sep_is(s.drop_first(), sep, k - 1);
    }
}

/// Unfolds `split_on` at a position known to bound a separator-free prefix.
proof fn lemma_split_on_step(s: Seq<char>, sep: char, k: int)
    requires
        0 <= k <= s.len(),
        forall|m: int| 0 <= m < k ==> s[m] != sep,
        k < s.len() ==> s[k] == sep,
    ensures
        k == s.len() ==> split_on(s, sep) == seq![s],
        k < s.len() ==> split_on(s, sep) == seq![s.take(k)] + split_on(s.skip(k + 1), sep),
{
    lemma_first_sep_is(s, sep, k);
}

/// Split `s` into its fields around `sep`.
pub fn split_str(s: &str, sep: char) -> (r: Vec<String>)
    ensures
        r@.len() == split_on(s@, sep).len(),
        forall|m: int| 0 <= m < r@.len() ==> r@[m]@ == split_on(s@, sep)[m],
{
    let len = s.unicode_len();
    let mut res: Vec<String> = Vec::new();
    let mut start: usize = 0;
    let mut i: usize = 0;
    proof {
        assert(s@.skip(0) =~= s@);
    }
    while i < len
        invariant
            start <= i <= len,
            len == s@.len(),
            forall|m: int| start <= m < i ==> s@[m] != sep,
            split_on(s@.skip(start as int), sep) =~= split_on(s@, sep).skip(res@.len() as int),
            res@.len() <= split_on(s@, sep).len(),
            forall|m: int| 0 <= m < res@.len() ==> res@[m]@ == split_on(s@, sep)[m],
        decreases len - i,
    {
        let c = s.get_char(i);
        if c == sep {
            let field = s.substring_char(start, i).to_owned();
            let ghost old_count = res@.len() as int;
            res.push(field);
            proof {
                let t = s@.skip(start as int);
                lemma_split_on_step(t, sep, i - start as int);
                assert(t.take(i - start as int) =~= s@.subrange(start as int, i as int));
                assert(t.skip(i - start as int + 1) =~= s@.skip(i as int + 1));
                assert(split_on(t, sep).len() == 1 + split_on(s@.skip(i as int + 1), sep).len());
                assert(split_on(s@, sep).len() == old_count + split_on(t, sep).len());
                assert(split_on(s@, sep).skip(old_count)[0] == split_on(s@, sep)[old_count]);
                assert(split_on(s@, sep).skip(old_count).drop_first() =~= split_on(s@, sep).skip(
                    old_count + 1,
                ));
                assert(split_on(s@.skip(i as int + 1), sep) =~= split_on(s@, sep).skip(
                    old_count + 1,
                ));
            }
            start = i + 1;
        }
        i = i + 1;
    }
    let field = s.substring_char(start, len).to_owned();
    let ghost old_count = res@.len() as int;
    res.push(field);
    proof {
        let t = s@.skip(start as int);
        lemma_split_on_step(t, sep, len - start as int);
        assert(t =~= s@.subrange(start as int, len as int));
        assert(split_on(s@, sep).skip(old_count).len() == 1);
        assert(split_on(s@, sep).skip(old_count)[0] == split_on(s@, sep)[old_count]);
        assert(res@.len() == split_on(s@, sep).len());
    }
    res
}

/// The characters with the Unicode `White_Space` property, the set
/// `char::is_whitespace` recognises.
pub open spec fn is_space(c: char) -> bool {
    ||| c == ' '
    ||| c == '\u{0009}'
    ||| c == '\u{000A}'
    ||| c == '\u{000B}'
    ||| c == '\u{000C}'
    ||| c == '\u{000D}'
    ||| c == '\u{0085}'
    ||| c == '\u{00A0}'
    ||| c == '\u{1680}'
    ||| c == '\u{2000}'
    ||| c == '\u{2001}'
    ||| c == '\u{2002}'
    ||| c == '\u{2003}'
    ||| c == '\u{2004}'
    ||| c == '\u{2005}'
    ||| c == '\u{2006}'
    ||| c == '\u{2007}'
    ||| c == '\u{2008}'
    ||| c == '\u{2009}'
    ||| c == '\u{200A}'
    ||| c == '\u{2028}'
    ||| c == '\u{2029}'
    ||| c == '\u{202F}'
    ||| c == '\u{205F}'
    ||| c == '\u{3000}'
}

fn is_space_char(c: char) -> (r: bool)
    ensures
        r == is_space(c),
{
    c == ' ' || c == '\u{0009}' || c == '\u{000A}' || c == '\u{000B}' || c == '\u{000C}' || c
        == '\u{000D}' || c == '\u{0085}' || c == '\u{00A0}' || c == '\u{1680}' || c == '\u{2000}'
        || c == '\u{2001}' || c == '\u{2002}' || c == '\u{2003}' || c == '\u{2004}' || c
        == '\u{2005}' || c == '\u{2006}' || c == '\u{2007}' || c == '\u{2008}' || c == '\u{2009}'
        || c == '\u{200A}' || c == '\u{2028}' || c == '\u{2029}' || c == '\u{202F}' || c
        == '\u{205F}' || c == '\u{3000}'
}

/// Length of the maximal whitespace-free prefix of `s`.
pub open spec fn token_len(s: Seq<char>) -> nat
    decreases s.len(),
{
    if s.len() == 0 || is_space(s[0]) {
        0
    } else {
        1 + token_len(s.drop_first())
    }
}

/// The whitespace-delimited fields of `s`, in order: maximal runs of
/// non-whitespace characters, with no empty fields.
pub open spec fn spec_fields(s: Seq<char>) -> Seq<Seq<char>>
    decreases s.len(),
{
    if s.len() == 0 {
        Seq::empty()
    } else if is_space(s[0]) {
        spec_fields(s.drop_first())
    } else {
        let k = token_len(s);
        if k >= s.len() {
            seq![s]
        } else {
            seq![s.take(k as int)] + spec_fields(s.skip(k as int))
        }
    }
}

/// `token_len` is the unique bound of a whitespace-free prefix.
proof fn lemma_token_len_is(s: Seq<char>, k: int)
    requires
        0 <= k <= s.len(),
        forall|m: int| 0 <= m < k ==> !is_space(s[m]),
        k < s.len() ==> is_space(s[k]),
    ensures
        token_len(s) == k,
    decreases k,
{
    if k > 0 {
        lemma_token_len_is(s.drop_first(), k - 1);
    }
}

/// Unfolds `spec_fields` at the start of a token whose extent is known.
proof fn lemma_fields_token(s: Seq<char>, k: int)
    requires
        0 < k <= s.len(),
        forall|m: int| 0 <= m < k ==> !is_space(s[m]),
        k < s.len() ==> is_space(s[k]),
    ensures
        k == s.len() ==> spec_fields(s) == seq![s],
        k < s.len() ==> spec_fields(s) == seq![s.take(k)] + spec_fields(s.skip(k)),
{
    lemma_token_len_is(s, k);
}

/// The `n`th whitespace-delimited field of `s`, if `s` has that many fields.
pub fn whitespace_field<'a>(s: &'a str, n: usize) -> (r: Option<&'a str>)
    ensures
        match r {
            Some(f) => n < spec_fields(s@).len() && f@ == spec_fields(s@)[n as int],
            None => spec_fields(s@).len() <= n,
        },
{
    let len = s.unicode_len();
    let mut i: usize = 0;
    let mut count: usize = 0;
    proof {
        assert(s@.skip(0) =~= s@);
        assert(spec_fields(s@).skip(0) =~= spec_fields(s@));
    }
    loop
        invariant
            i <= len,
            count <= n,
            count <= spec_fields(s@).len(),
            len == s@.len(),
            spec_fields(s@.skip(i as int)) =~= spec_fields(s@).skip(count as int),
        decreases len - i,
    {
        let ghost i_top = i;
        while i < len && is_space_char(s.get_char(i))
            invariant
                i_top <= i <= len,
                len == s@.len(),
                spec_fields(s@.skip(i as int)) =~= spec_fields(s@).skip(count as int),
            decreases len - i,
        {
            proof {
                assert(s@.skip(i as int).drop_first() =~= s@.skip(i as int + 1));
            }
            i = i + 1;
        }
        if i == len {
            proof {
                assert(s@.skip(len as int) =~= Seq::<char>::empty());
                assert(spec_fields(s@).skip(count as int).len() == 0);
            }
            return None;
        }
        let mut j: usize = i + 1;
        while j < len && !is_space_char(s.get_char(j))
            invariant
                i < j <= len,
                len == s@.len(),
                forall|m: int| i < m < j ==> !is_space(s@[m]),
            decreases len - j,
        {
            j = j + 1;
        }
        proof {
            let t = s@.skip(i as int);
            lemma_fields_token(t, j - i as int);
            assert(t.take(j - i as int) =~= s@.subrange(i as int, j as int));
            if j < len {
                assert(t.skip(j - i as int) =~= s@.skip(j as int));
                assert(spec_fields(t).len() == 1 + spec_fields(s@.skip(j as int)).len());
            } else {
                assert(t =~= s@.subrange(i as int, j as int));
            }
            assert(spec_fields(s@).len() >= count + 1);
            assert(spec_fields(s@).skip(count as int)[0] == spec_fields(s@)[count as int]);
            assert(spec_fields(s@)[count as int] == s@.subrange(i as int, j as int));
        }
        if count == n {
            return Some(s.substring_char(i, j));
        }
        count = count + 1;
        proof {
            assert(spec_fields(s@).skip(count as int - 1).drop_first() =~= spec_fields(
                s@,
            ).skip(count as int));
            if j < len {
                assert(spec_fields(s@.skip(j as int)) =~= spec_fields(s@).skip(count as int));
            } else {
                assert(s@.skip(len as int) =~= Seq::<char>::empty());
                assert(spec_fields(s@).skip(count as int).len() == 0);
                assert(spec_fields(s@.skip(len as int)) =~= spec_fields(s@).skip(count as int));
            }
        }
        i = j;
    }
}

/// Whether `p` is a prefix of `s`.
pub open spec fn starts_with_spec(s: Seq<char>, p: Seq<char>) -> bool {
    p.len() <= s.len() && (forall|i: int| 0 <= i < p.len() ==> s[i] == p[i])
}

/// Whether `s` starts with `p`.
pub fn str_starts_with(s: &str, p: &str) -> (r: bool)
    ensures
        r == starts_with_spec(s@, p@),
{
    let n = p.unicode_len();
    if s.unicode_len() < n {
        return false;
    }
    let mut i: usize = 0;
    while i < n
        invariant
            i <= n,
            n == p@.len(),
            n <= s@.len(),
            forall|m: int| 0 <= m < i ==> s@[m] == p@[m],
        decreases n - i,
    {
        if s.get_char(i) != p.get_char(i) {
            return false;
        }
        i = i + 1;
    }
    true
}

/// Whether `a` and `b` hold the same characters.
pub fn str_eq(a: &str, b: &str) -> (r: bool)
    ensures
        r == (a@ == b@),
{
    let n = a.unicode_len();
    if b.unicode_len() != n {
        return false;
    }
    let mut i: usize = 0;
    while i < n
        invariant
            i <= n,
            n == a@.len() == b@.len(),
            forall|m: int| 0 <= m < i ==> a@[m] == b@[m],
        decreases n - i,
    {
        if a.get_char(i) != b.get_char(i) {
            return false;
        }
        i = i + 1;
    }
    proof {
        assert(a@ =~= b@);
    }
    true
}

/// Whether `c` is a decimal digit.
pub open spec fn is_digit(c: char) -> bool {
    48 <= c as u32 <= 57
}

/// The value of a decimal digit.
pub open spec fn digit_val(c: char) -> nat {
    if is_digit(c) {
        (c as u32 - 48) as nat
    } else {
        0
    }
}

/// Whether `s` consists of decimal digits only.
pub open spec fn digits_only(s: Seq<char>) -> bool {
    forall|i: int| 0 <= i < s.len() ==> is_digit(s[i])
}

/// The value of `s` read as a decimal numeral.
pub open spec fn dec_value(s: Seq<char>) -> nat
    decreases s.len(),
{
    if s.len() == 0 {
        0
    } else {
        dec_value(s.drop_last()) * 10 + digit_val(s.last())
    }
}

/// A numeral's value never shrinks as digits are appended.
proof fn lemma_dec_value_prefix(s: Seq<char>, m: int)
    requires
        0 <= m <= s.len(),
    ensures
        dec_value(s.take(m)) <= dec_value(s),
    decreases s.len(),
{
    if m < s.len() {
        assert(s.drop_last().take(m) =~= s.take(m));
        lemma_dec_value_prefix(s.drop_last(), m);
        assert(dec_value(s.drop_last()) <= dec_value(s.drop_last()) * 10 + digit_val(s.last()))
            by (nonlinear_arith);
    } else {
        assert(s.take(m) =~= s);
    }
}

/// Reads one more digit of a numeral.
pub(crate) proof fn lemma_dec_value_step(s: Seq<char>, m: int)
    requires
        0 <= m < s.len(),
    ensures
        dec_value(s.take(m + 1)) == dec_value(s.take(m)) * 10 + digit_val(s[m]),
{
    assert(s.take(m + 1).drop_last() =~= s.take(m));
    assert(s.take(m + 1).last() == s[m]);
}

pub(crate) fn digit_of(c: char) -> (r: Option<u32>)
    ensures
        r is Some <==> is_digit(c),
        r is Some ==> r.unwrap() == digit_val(c),
{
    let u = c as u32;
    if 48 <= u && u <= 57 {
        Some(u - 48)
    } else {
        None
    }
}

/// Parse `s` as an unsigned 16-bit decimal number, the way `u16`'s `FromStr`
/// implementation reads it: an optional leading `+`, then one or more
/// decimal digits (leading zeros allowed), value at most 65535.
pub open spec fn spec_parse_u16(s: Seq<char>) -> Option<u16> {
    let t = if s.len() > 0 && s[0] == '+' {
        s.drop_first()
    } else {
        s
    };
    if t.len() > 0 && digits_only(t) && dec_value(t) <= 65535 {
        Some(dec_value(t) as u16)
    } else {
        None
    }
}

/// Parse a decimal `u16`, accepting exactly what `spec_parse_u16` accepts.
pub fn parse_u16(s: &str) -> (r: Option<u16>)
    ensures
        r == spec_parse_u16(s@),
{
    let len = s.unicode_len();
    let start: usize = if len > 0 && s.get_char(0) == '+' {
        1
    } else {
        0
    };
    let ghost t = if start == 1 {
        s@.drop_first()
    } else {
        s@
    };
    proof {
        assert(t =~= s@.skip(start as int));
    }
    if start == len {
        return None;
    }
    let mut acc: u32 = 0;
    let mut i: usize = start;
    while i < len
        invariant
            start <= i <= len,
            len == s@.len(),
            t == s@.skip(start as int),
            t == (if s@.len() > 0 && s@[0] == '+' {
                s@.drop_first()
            } else {
                s@
            }),
            forall|m: int| 0 <= m < i - start ==> is_digit(t[m]),
            acc == dec_value(t.take(i - start as int)),
            acc <= 65535,
        decreases len - i,
    {
        let c = s.get_char(i);
        proof {
            assert(t[i - start as int] == s@[i as int]);
        }
        match digit_of(c) {
            None => {
                proof {
                    assert(!digits_only(t));
                }
                return None;
            },
            Some(d) => {
                proof {
                    lemma_dec_value_step(t, i - start as int);
                }
                let next = acc * 10 + d;
                if next > 65535 {
                    proof {
                        lemma_dec_value_prefix(t, i + 1 - start as int);
                    }
                    return None;
                }
                acc = next;
            },
        }
        i = i + 1;
    }
    proof {
        assert(t.take(len - start as int) =~= t);
    }
    Some(acc as u16)
}

} // verus!
