//! Small text utilities shared across the library: decimal parsing and
//! formatting of 64-bit ids, path component extraction on plain strings,
//! ASCII case folding and whitespace tokenization.

use vstd::prelude::*;

verus! {

/// Builds a `String` from a vector of characters.
///
/// Relies on `core::iter::Iterator::collect` for `String`: the collected
/// string holds exactly the characters of the iterator, in order.
#[verifier::external_body]
pub fn chars_to_string(v: &Vec<char>) -> (s: String)
    ensures
        s@ == v@,
{
    v.iter().collect()
}

//////////////////////////////////////////////////////////////////////////
// Decimal parsing and formatting
//////////////////////////////////////////////////////////////////////////

pub open spec fn is_dec_digit(c: char) -> bool {
    '0' <= c && c <= '9'
}

pub open spec fn digit_val(c: char) -> int {
    c as int - '0' as int
}

pub open spec fn all_dec_digits(s: Seq<char>) -> bool {
    forall|i: int| 0 <= i < s.len() ==> is_dec_digit(#[trigger] s[i])
}

/// Numeric value of a digit string, most significant digit first.
pub open spec fn dec_value(s: Seq<char>) -> int
    decreases s.len(),
{
    if s.len() == 0 {
        0
    } else {
        dec_value(s.drop_last()) * 10 + digit_val(s.last())
    }
}

/// The digit part of a decimal string: everything after an optional
/// leading `+`.
pub open spec fn parse_digits(s: Seq<char>) -> Seq<char> {
    if s.len() > 0 && s[0] == '+' {
        s.subrange(1, s.len() as int)
    } else {
        s
    }
}

/// What a decimal u64 parser accepts: an optional leading `+`, then at
/// least one decimal digit, with a value that fits in 64 bits.
pub open spec fn spec_parse_u64(s: Seq<char>) -> Option<u64> {
    let digits = parse_digits(s);
    if digits.len() > 0 && all_dec_digits(digits) && dec_value(digits) <= u64::MAX {
        Some(dec_value(digits) as u64)
    } else {
        None
    }
}

pub proof fn lemma_dec_value_nonneg(s: Seq<char>)
    requires
        all_dec_digits(s),
    ensures
        dec_value(s) >= 0,
    decreases s.len(),
{
    if s.len() > 0 {
        assert(all_dec_digits(s.drop_last()));
        lemma_dec_value_nonneg(s.drop_last());
    }
}

/// The value of a digit string is at least the value of any of its prefixes.
pub proof fn lemma_dec_value_prefix(s: Seq<char>, i: int)
    requires
        all_dec_digits(s),
        0 <= i <= s.len(),
    ensures
        dec_value(s.subrange(0, i)) <= dec_value(s),
    decreases s.len(),
{
    if i < s.len() {
        assert(all_dec_digits(s.drop_last()));
        lemma_dec_value_nonneg(s.drop_last());
        assert(dec_value(s) >= dec_value(s.drop_last()));
        assert(s.drop_last().subrange(0, i) =~= s.subrange(0, i));
        lemma_dec_value_prefix(s.drop_last(), i);
    } else {
        assert(s.subrange(0, i) =~= s);
    }
}

/// Parses a decimal `u64`, accepting an optional leading `+`, exactly as
/// `spec_parse_u64` describes; `None` on empty input, a stray character
/// or overflow.
pub fn parse_u64(s: &str) -> (r: Option<u64>)
    ensures
        r == spec_parse_u64(s@),
{
    let len: usize = s.unicode_len();
    let mut start: usize = 0;
    if len > 0 && s.get_char(0) == '+' {
        start = 1;
    }
    let ghost digits: Seq<char> = parse_digits(s@);
    proof {
        assert(s@.subrange(0, s@.len() as int) =~= s@);
        assert(digits =~= s@.subrange(start as int, len as int));
    }
    if start >= len {
        assert(digits.len() == 0);
        return None;
    }
    let mut acc: u64 = 0;
    let mut i: usize = start;
    while i < len
        invariant
            start <= i <= len,
            len == s@.len(),
            digits == parse_digits(s@),
            digits == s@.subrange(start as int, len as int),
            all_dec_digits(s@.subrange(start as int, i as int)),
            acc == dec_value(s@.subrange(start as int, i as int)),
        decreases len - i,
    {
        let c = s.get_char(i);
        if c < '0' || c > '9' {
            assert(!is_dec_digit(digits[i - start]));
            return None;
        }
        let d: u64 = (c as u32 - '0' as u32) as u64;
        assert(d as int == digit_val(c));
        let ghost prefix = s@.subrange(start as int, i as int);
        let ghost prefix1 = s@.subrange(start as int, i + 1 as int);
        assert(prefix1.drop_last() =~= prefix);
        assert(prefix1.last() == c);
        assert(dec_value(prefix1) == acc * 10 + d);
        let next = match acc.checked_mul(10) {
            Some(m) => m.checked_add(d),
            None => None,
        };
        match next {
            Some(v) => {
                acc = v;
            },
            None => {
                // the prefix already exceeds u64::MAX, so the whole string does
                proof {
                    assert(acc * 10 + d > u64::MAX);
                    assert(all_dec_digits(prefix1));
                    assert(dec_value(prefix1) > u64::MAX);
                    assert(prefix1 =~= digits.subrange(0, i + 1 - start));
                    if all_dec_digits(digits) {
                        lemma_dec_value_prefix(digits, i + 1 - start);
                        assert(dec_value(digits.subrange(0, i + 1 - start)) <= dec_value(digits));
                        assert(dec_value(digits) > u64::MAX);
                    }
                    assert(spec_parse_u64(s@) is None);
                }
                return None;
            },
        }
        i = i + 1;
    }
    assert(s@.subrange(start as int, i as int) =~= digits);
    Some(acc)
}

/// Decimal digits of `n`, most significant first; empty for zero.
pub open spec fn spec_u64_digits(n: int) -> Seq<char>
    decreases n,
{
    if n <= 0 {
        seq![]
    } else {
        spec_u64_digits(n / 10).push((((n % 10) + '0' as int) as u8) as char)
    }
}

/// Decimal rendering of `n`, as `u64::to_string` produces it.
pub open spec fn spec_u64_string(n: int) -> Seq<char> {
    if n == 0 {
        seq!['0']
    } else {
        spec_u64_digits(n)
    }
}

/// Renders a `u64` in decimal.
pub fn u64_to_string(n: u64) -> (r: String)
    ensures
        r@ == spec_u64_string(n as int),
{
    let mut v: Vec<char> = Vec::new();
    let mut rest: u64 = n;
    while rest > 0
        invariant
            spec_u64_digits(n as int) =~= spec_u64_digits(rest as int) + v@,
        decreases rest,
    {
        let d: u64 = rest % 10;
        let c: char = ((48u8 + (d as u8)) as char);
        assert(c == (((rest as int % 10) + '0' as int) as u8) as char);
        v.insert(0, c);
        rest = rest / 10;
    }
    if v.len() == 0 {
        v.push('0');
        assert(n == 0);
    }
    chars_to_string(&v)
}

//////////////////////////////////////////////////////////////////////////
// Path components, over plain strings with `/` separators
//////////////////////////////////////////////////////////////////////////

/// Index of the last occurrence of `c` in `s`, or -1 if absent.
pub open spec fn last_index_of(s: Seq<char>, c: char) -> int
    decreases s.len(),
{
    if s.len() == 0 {
        -1
    } else if s.last() == c {
        s.len() - 1
    } else {
        last_index_of(s.drop_last(), c)
    }
}

pub proof fn lemma_last_index_of_bounds(s: Seq<char>, c: char)
    ensures
        -1 <= last_index_of(s, c) < s.len(),
        last_index_of(s, c) >= 0 ==> s[last_index_of(s, c)] == c,
        forall|i: int| last_index_of(s, c) < i < s.len() ==> s[i] != c,
    decreases s.len(),
{
    if s.len() > 0 && s.last() != c {
        lemma_last_index_of_bounds(s.drop_last(), c);
        assert forall|i: int| last_index_of(s, c) < i < s.len() implies s[i] != c by {
            if i < s.len() - 1 {
                assert(s[i] == s.drop_last()[i]);
            }
        }
    }
}

/// The final path component: everything after the last `/`.
pub open spec fn spec_file_name(p: Seq<char>) -> Seq<char> {
    p.subrange(last_index_of(p, '/') + 1, p.len() as int)
}

/// The extension of the final component: everything after its last `.`,
/// unless the component has no `.` past its first character.
pub open spec fn spec_extension(p: Seq<char>) -> Option<Seq<char>> {
    let name = spec_file_name(p);
    let d = last_index_of(name, '.');
    if d <= 0 {
        None
    } else {
        Some(name.subrange(d + 1, name.len() as int))
    }
}

/// The stem of the final component: what precedes the extension.
pub open spec fn spec_file_stem(p: Seq<char>) -> Seq<char> {
    let name = spec_file_name(p);
    let d = last_index_of(name, '.');
    if d <= 0 {
        name
    } else {
        name.subrange(0, d)
    }
}

/// Index of the last occurrence of `c` in `s`, scanning from the end.
fn find_last(s: &str, c: char) -> (r: Option<usize>)
    ensures
        r matches Some(i) ==> last_index_of(s@, c) == i as int && i < s@.len(),
        r is None ==> last_index_of(s@, c) == -1,
{
    let len: usize = s.unicode_len();
    let mut i: usize = len;
    assert(s@.subrange(0, len as int) =~= s@);
    while i > 0
        invariant
            0 <= i <= len,
            len == s@.len(),
            last_index_of(s@, c) == last_index_of(s@.subrange(0, i as int), c),
        decreases i,
    {
        let ghost pre = s@.subrange(0, i as int);
        assert(pre.last() == s@[i - 1]);
        assert(pre.drop_last() =~= s@.subrange(0, i - 1));
        if s.get_char(i - 1) == c {
            return Some(i - 1);
        }
        i = i - 1;
    }
    assert(s@.subrange(0, 0) =~= Seq::<char>::empty());
    None
}

/// Returns the final path component of `p`.
pub fn file_name(p: &str) -> (r: String)
    ensures
        r@ == spec_file_name(p@),
{
    let len: usize = p.unicode_len();
    let start: usize = match find_last(p, '/') {
        Some(i) => i + 1,
        None => 0,
    };
    proof {
        lemma_last_index_of_bounds(p@, '/');
    }
    let sub = p.substring_char(start, len);
    sub.to_owned()
}

/// Returns the extension of the final component of `p`, as the file
/// system sees it: the text after the component's last `.`, or `None`
/// when the component has no `.` past its first character.
pub fn extension(p: &str) -> (r: Option<String>)
    ensures
        r matches Some(e) ==> spec_extension(p@) == Some(e@),
        r is None ==> spec_extension(p@) is None,
{
    let name = file_name(p);
    let name_str = name.as_str();
    let nlen: usize = name_str.unicode_len();
    match find_last(name_str, '.') {
        Some(d) if d > 0 => {
            proof {
                lemma_last_index_of_bounds(name@, '.');
            }
            Some(name_str.substring_char(d + 1, nlen).to_owned())
        },
        _ => None,
    }
}

/// Returns the stem of the final component of `p`.
pub fn file_stem(p: &str) -> (r: String)
    ensures
        r@ == spec_file_stem(p@),
{
    let name = file_name(p);
    let name_str = name.as_str();
    match find_last(name_str, '.') {
        Some(d) if d > 0 => {
            proof {
                lemma_last_index_of_bounds(name@, '.');
            }
            name_str.substring_char(0, d).to_owned()
        },
        _ => name,
    }
}

//////////////////////////////////////////////////////////////////////////
// ASCII case folding
//////////////////////////////////////////////////////////////////////////

/// ASCII lowering of one character.
pub open spec fn lower_char(c: char) -> char {
    if 'A' <= c && c <= 'Z' {
        ((c as u8) + 32) as char
    } else {
        c
    }
}

pub open spec fn spec_lower(s: Seq<char>) -> Seq<char> {
    Seq::new(s.len(), |i: int| lower_char(s[i]))
}

/// Lowers the ASCII letters of `s`, leaving other characters alone.
pub fn to_ascii_lowercase(s: &str) -> (r: String)
    ensures
        r@ == spec_lower(s@),
{
    let len: usize = s.unicode_len();
    let mut v: Vec<char> = Vec::new();
    let mut i: usize = 0;
    while i < len
        invariant
            0 <= i <= len,
            len == s@.len(),
            v@ =~= spec_lower(s@).subrange(0, i as int),
        decreases len - i,
    {
        let c = s.get_char(i);
        let lc: char = if 'A' <= c && c <= 'Z' {
            ((c as u8) + 32) as char
        } else {
            c
        };
        v.push(lc);
        assert(v@ =~= spec_lower(s@).subrange(0, i + 1 as int));
        i = i + 1;
    }
    assert(spec_lower(s@).subrange(0, len as int) =~= spec_lower(s@));
    chars_to_string(&v)
}

//////////////////////////////////////////////////////////////////////////
// Whitespace tokenization and joining
//////////////////////////////////////////////////////////////////////////

pub open spec fn is_space(c: char) -> bool {
    c == ' ' || c == '\t' || c == '\n' || c == '\r'
}

/// Tokens of `cur + s`, where `cur` is a partial token already read.
pub open spec fn tokens_from(s: Seq<char>, cur: Seq<char>) -> Seq<Seq<char>>
    decreases s.len(),
{
    if s.len() == 0 {
        if cur.len() == 0 {
            seq![]
        } else {
            seq![cur]
        }
    } else if is_space(s.first()) {
        if cur.len() == 0 {
            tokens_from(s.drop_first(), seq![])
        } else {
            seq![cur] + tokens_from(s.drop_first(), seq![])
        }
    } else {
        tokens_from(s.drop_first(), cur.push(s.first()))
    }
}

/// The maximal runs of non-whitespace characters of `s`, in order.
pub open spec fn spec_tokens(s: Seq<char>) -> Seq<Seq<char>> {
    tokens_from(s, seq![])
}

/// Splits `s` into its whitespace-separated tokens.
pub fn split_tokens(s: &str) -> (r: Vec<String>)
    ensures
        r.deep_view() == spec_tokens(s@),
{
    let len: usize = s.unicode_len();
    let mut out: Vec<String> = Vec::new();
    let mut cur: Vec<char> = Vec::new();
    let mut i: usize = 0;
    proof {
        assert(s@.subrange(0, len as int) =~= s@);
    }
    while i < len
        invariant
            0 <= i <= len,
            len == s@.len(),
            spec_tokens(s@) == out.deep_view() + tokens_from(
                s@.subrange(i as int, len as int),
                cur@,
            ),
        decreases len - i,
    {
        let ghost rest = s@.subrange(i as int, len as int);
        let ghost rest1 = s@.subrange(i + 1 as int, len as int);
        proof {
            assert(rest.first() == s@[i as int]);
            assert(rest.drop_first() =~= rest1);
        }
        let c = s.get_char(i);
        proof {
            if cur@.len() == 0 {
                assert(cur@ =~= seq![]);
            }
        }
        if c == ' ' || c == '\t' || c == '\n' || c == '\r' {
            if cur.len() > 0 {
                let ghost old_out = out.deep_view();
                let ghost old_cur = cur@;
                out.push(chars_to_string(&cur));
                cur = Vec::new();
                proof {
                    assert(cur@ =~= seq![]);
                    assert(out.deep_view() =~= old_out.push(old_cur));
                    assert(tokens_from(rest, old_cur) == seq![old_cur] + tokens_from(
                        rest1,
                        seq![],
                    ));
                    assert(old_out.push(old_cur) + tokens_from(rest1, seq![]) =~= old_out + (
                    seq![old_cur] + tokens_from(rest1, seq![])));
                }
            }
        } else {
            cur.push(c);
        }
        i = i + 1;
    }
    assert(s@.subrange(len as int, len as int) =~= Seq::<char>::empty());
    if cur.len() > 0 {
        let ghost old_out = out.deep_view();
        let ghost old_cur = cur@;
        out.push(chars_to_string(&cur));
        proof {
            assert(out.deep_view() =~= old_out.push(old_cur));
            assert(old_out.push(old_cur) =~= old_out + seq![old_cur]);
        }
    }
    assert(out.deep_view() + Seq::<Seq<char>>::empty() =~= out.deep_view());
    out
}

/// `parts` joined with `+` between consecutive elements.
pub open spec fn spec_join_plus(parts: Seq<Seq<char>>) -> Seq<char>
    decreases parts.len(),
{
    if parts.len() == 0 {
        seq![]
    } else if parts.len() == 1 {
        parts[0]
    } else {
        spec_join_plus(parts.drop_last()) + seq!['+'] + parts.last()
    }
}

/// Joins strings with a `+` separator, as tesseract expects its
/// language list.
pub fn join_plus(parts: &Vec<String>) -> (r: String)
    ensures
        r@ == spec_join_plus(parts.deep_view()),
{
    let mut v: Vec<char> = Vec::new();
    let mut k: usize = 0;
    while k < parts.len()
        invariant
            0 <= k <= parts.deep_view().len(),
            parts.deep_view().len() == parts.len(),
            v@ == spec_join_plus(parts.deep_view().subrange(0, k as int)),
        decreases parts.len() - k,
    {
        let ghost pre = parts.deep_view().subrange(0, k as int);
        let ghost pre1 = parts.deep_view().subrange(0, k + 1 as int);
        proof {
            assert(pre1.drop_last() =~= pre);
            assert(pre1.last() == parts.deep_view()[k as int]);
        }
        if k > 0 {
            v.push('+');
        }
        let part = &parts[k];
        let plen: usize = part.as_str().unicode_len();
        let mut j: usize = 0;
        while j < plen
            invariant
                0 <= j <= plen,
                plen == parts.deep_view()[k as int].len(),
                k < parts.deep_view().len(),
                v@ == (if k > 0 {
                    spec_join_plus(parts.deep_view().subrange(0, k as int)) + seq!['+']
                } else {
                    spec_join_plus(parts.deep_view().subrange(0, k as int))
                }) + parts.deep_view()[k as int].subrange(0, j as int),
                part@ == parts.deep_view()[k as int],
            decreases plen - j,
        {
            v.push(part.as_str().get_char(j));
            assert(part@.subrange(0, j + 1 as int) =~= part@.subrange(0, j as int).push(
                part@[j as int],
            ));
            j = j + 1;
        }
        proof {
            assert(parts.deep_view()[k as int].subrange(
                0,
                parts.deep_view()[k as int].len() as int,
            ) =~= parts.deep_view()[k as int]);
            if k > 0 {
                assert(v@ =~= spec_join_plus(pre) + seq!['+'] + pre1.last());
            } else {
                assert(v@ =~= pre1.last());
            }
        }
        k = k + 1;
    }
    assert(parts.deep_view().subrange(0, parts.deep_view().len() as int) =~= parts.deep_view());
    chars_to_string(&v)
}

} // verus!
