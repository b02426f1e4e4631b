//! Character-level text utilities shared by the manifest parser and the
//! configuration-directive editor: whitespace trimming, line splitting,
//! decimal parsing and string comparison, each specified over `Seq<char>`.

use vstd::prelude::*;

verus! {

/// A white-space character: the Unicode White_Space set, which is what
/// trimming recognizes.
pub open spec fn is_wsp(c: char) -> bool {
    let v = c as u32;
    (9 <= v && v <= 13) || v == 0x20 || v == 0x85 || v == 0xA0 || v == 0x1680 || (0x2000 <= v
        && v <= 0x200A) || v == 0x2028 || v == 0x2029 || v == 0x202F || v == 0x205F || v == 0x3000
}

fn is_wsp_char(c: char) -> (r: bool)
    ensures
        r == is_wsp(c),
{
    let v = c as u32;
    (9 <= v && v <= 13) || v == 0x20 || v == 0x85 || v == 0xA0 || v == 0x1680 || (0x2000 <= v
        && v <= 0x200A) || v == 0x2028 || v == 0x2029 || v == 0x202F || v == 0x205F || v == 0x3000
}

/// `s` without its leading whitespace.
pub open spec fn trim_front(s: Seq<char>) -> Seq<char>
    decreases s.len(),
{
    if s.len() > 0 && is_wsp(s[0]) {
        trim_front(s.drop_first())
    } else {
        s
    }
}

/// `s` without its trailing whitespace.
pub open spec fn trim_back(s: Seq<char>) -> Seq<char>
    decreases s.len(),
{
    if s.len() > 0 && is_wsp(s.last()) {
        trim_back(s.drop_last())
    } else {
        s
    }
}

/// `s` without leading and trailing whitespace.
pub open spec fn trim(s: Seq<char>) -> Seq<char> {
    trim_back(trim_front(s))
}

proof fn lemma_trim_front_range(s: Seq<char>, i: int)
    requires
        0 <= i <= s.len(),
        forall|j: int| 0 <= j < i ==> is_wsp(s[j]),
        i == s.len() || !is_wsp(s[i]),
    ensures
        trim_front(s) == s.subrange(i, s.len() as int),
    decreases i,
{
    if i == 0 {
        assert(s.subrange(0, s.len() as int) =~= s);
    } else {
        assert(is_wsp(s[0]));
        lemma_trim_front_range(s.drop_first(), i - 1);
        assert(s.drop_first().subrange(i - 1, s.drop_first().len() as int) =~= s.subrange(
            i,
            s.len() as int,
        ));
    }
}

proof fn lemma_trim_back_range(s: Seq<char>, e: int)
    requires
        0 <= e <= s.len(),
        forall|j: int| e <= j < s.len() ==> is_wsp(s[j]),
        e == 0 || !is_wsp(s[e - 1]),
    ensures
        trim_back(s) == s.subrange(0, e),
    decreases s.len() - e,
{
    if e == s.len() {
        if s.len() > 0 && is_wsp(s.last()) {
            assert(false);
        }
        assert(s.subrange(0, e) =~= s);
    } else {
        assert(is_wsp(s.last()));
        lemma_trim_back_range(s.drop_last(), e);
        assert(s.drop_last().subrange(0, e) =~= s.subrange(0, e));
    }
}

/// Trim whitespace from both ends of `s`.
pub fn trim_str<'a>(s: &'a str) -> (r: &'a str)
    ensures
        r@ == trim(s@),
{
    let len = s.unicode_len();
    let mut start: usize = 0;
    while start < len && is_wsp_char(s.get_char(start))
        invariant
            len == s@.len(),
            start <= len,
            forall|j: int| 0 <= j < start ==> is_wsp(s@[j]),
        decreases len - start,
    {
        start = start + 1;
    }
    let mut end: usize = len;
    while end > start && is_wsp_char(s.get_char(end - 1))
        invariant
            len == s@.len(),
            start <= end <= len,
            forall|j: int| end <= j < len ==> is_wsp(s@[j]),
        decreases end,
    {
        end = end - 1;
    }
    proof {
        if start == end {
            lemma_trim_front_range(s@, len as int);
            lemma_trim_back_range(trim_front(s@), 0);
            assert(trim_front(s@).subrange(0, 0) =~= s@.subrange(start as int, end as int));
        } else {
            lemma_trim_front_range(s@, start as int);
            lemma_trim_back_range(trim_front(s@), end - start);
            assert(trim_front(s@).subrange(0, end - start) =~= s@.subrange(
                start as int,
                end as int,
            ));
        }
    }
    s.substring_char(start, end)
}

/// The index of the first line feed in `s`, or `s.len()` if there is none.
pub open spec fn line_break(s: Seq<char>) -> int
    decreases s.len(),
{
    if s.len() == 0 {
        0
    } else if s[0] == '\n' {
        0
    } else {
        1 + line_break(s.drop_first())
    }
}

proof fn lemma_line_break_bounds(s: Seq<char>)
    ensures
        0 <= line_break(s) <= s.len(),
        line_break(s) < s.len() ==> s[line_break(s)] == '\n',
        forall|j: int| 0 <= j < line_break(s) ==> s[j] != '\n',
    decreases s.len(),
{
    if s.len() == 0 || s[0] == '\n' {
    } else {
        lemma_line_break_bounds(s.drop_first());
        assert forall|j: int| 0 <= j < line_break(s) implies s[j] != '\n' by {
            if j > 0 {
                assert(s.drop_first()[j - 1] == s[j]);
            }
        }
    }
}

proof fn lemma_line_break_at(s: Seq<char>, i: int)
    requires
        0 <= i <= s.len(),
        forall|j: int| 0 <= j < i ==> s[j] != '\n',
        i == s.len() || s[i] == '\n',
    ensures
        line_break(s) == i,
    decreases i,
{
    if i == 0 {
    } else {
        if i < s.len() {
            assert(s.drop_first()[i - 1] == s[i]);
        }
        assert forall|j: int| 0 <= j < i - 1 implies s.drop_first()[j] != '\n' by {
            assert(s.drop_first()[j] == s[j + 1]);
        }
        lemma_line_break_at(s.drop_first(), i - 1);
    }
}

/// A line terminated by a line feed loses one carriage return before it, so
/// that both bare and carriage-return line endings delimit lines.
pub open spec fn strip_cr(line: Seq<char>) -> Seq<char> {
    if line.len() > 0 && line.last() == '\r' {
        line.drop_last()
    } else {
        line
    }
}

/// The lines of `s`: split at line feeds, each line without its line ending,
/// and no final empty line when `s` ends with a line ending.
pub open spec fn split_lines(s: Seq<char>) -> Seq<Seq<char>>
    decreases s.len(),
    via split_lines_decreases
{
    if s.len() == 0 {
        seq![]
    } else {
        let i = line_break(s);
        if i == s.len() {
            seq![s]
        } else {
            seq![strip_cr(s.subrange(0, i))] + split_lines(s.subrange(i + 1, s.len() as int))
        }
    }
}

#[via_fn]
proof fn split_lines_decreases(s: Seq<char>) {
    lemma_line_break_bounds(s);
}

/// Split `s` into its lines, as [`split_lines`] describes.
pub fn split_lines_str<'a>(s: &'a str) -> (r: Vec<&'a str>)
    ensures
        r@.len() == split_lines(s@).len(),
        forall|k: int| 0 <= k < r@.len() ==> #[trigger] r@[k]@ == split_lines(s@)[k],
{
    let ghost line_view = |t: &'a str| t@;
    let len = s.unicode_len();
    let mut r: Vec<&'a str> = Vec::new();
    let mut pos: usize = 0;
    proof {
        assert(s@.skip(0) =~= s@);
        assert(r@.map_values(line_view) =~= Seq::<Seq<char>>::empty());
    }
    while pos < len
        invariant
            len == s@.len(),
            pos <= len,
            split_lines(s@) == r@.map_values(|t: &'a str| t@) + split_lines(s@.skip(pos as int)),
        decreases len - pos,
    {
        let mut nb: usize = pos;
        while nb < len && s.get_char(nb) != '\n'
            invariant
                len == s@.len(),
                pos <= nb <= len,
                forall|j: int| pos <= j < nb ==> s@[j] != '\n',
            decreases len - nb,
        {
            nb = nb + 1;
        }
        let ghost rest = s@.skip(pos as int);
        proof {
            assert forall|j: int| 0 <= j < nb - pos implies rest[j] != '\n' by {
                assert(rest[j] == s@[pos + j]);
            }
            if nb < len {
                assert(rest[nb - pos] == s@[nb as int]);
            }
            lemma_line_break_at(rest, nb - pos);
        }
        if nb == len {
            let line = s.substring_char(pos, len);
            proof {
                assert(line@ =~= rest);
                assert(split_lines(rest) == seq![rest]);
                let old_views = r@.map_values(|t: &'a str| t@);
                assert(r@.push(line).map_values(|t: &'a str| t@) =~= old_views.push(line@));
                assert(old_views + seq![rest] =~= old_views.push(line@));
            }
            r.push(line);
            pos = len;
            proof {
                assert(s@.skip(len as int) =~= Seq::<char>::empty());
            }
        } else {
            let end = if nb > pos && s.get_char(nb - 1) == '\r' {
                nb - 1
            } else {
                nb
            };
            let line = s.substring_char(pos, end);
            proof {
                let full = rest.subrange(0, nb - pos);
                assert(full =~= s@.subrange(pos as int, nb as int));
                if nb > pos && s@[nb - 1] == '\r' {
                    assert(full.last() == '\r');
                    assert(line@ =~= full.drop_last());
                } else {
                    if full.len() > 0 {
                        assert(full.last() == s@[nb - 1]);
                    }
                    assert(line@ =~= full);
                }
                assert(line@ == strip_cr(full));
                assert(rest.subrange(nb - pos + 1, rest.len() as int) =~= s@.skip(nb + 1));
                assert(split_lines(rest) == seq![strip_cr(full)] + split_lines(s@.skip(nb + 1)));
                let old_views = r@.map_values(|t: &'a str| t@);
                assert(r@.push(line).map_values(|t: &'a str| t@) =~= old_views.push(line@));
                assert(old_views + (seq![line@] + split_lines(s@.skip(nb + 1))) =~= old_views.push(
                    line@,
                ) + split_lines(s@.skip(nb + 1)));
            }
            r.push(line);
            pos = nb + 1;
        }
    }
    proof {
        assert(s@.skip(len as int) =~= Seq::<char>::empty());
        let views = r@.map_values(|t: &'a str| t@);
        assert(split_lines(s@) =~= views);
        assert forall|k: int| 0 <= k < r@.len() implies #[trigger] r@[k]@ == split_lines(s@)[k] by {
            assert(views[k] == r@[k]@);
        }
    }
    r
}

/// A decimal digit.
pub open spec fn is_digit(c: char) -> bool {
    48 <= c as u32 <= 57
}

/// The value of a decimal digit.
pub open spec fn digit_val(c: char) -> nat {
    ((c as u32) - 48) as nat
}

/// The value of a digit sequence read as a decimal numeral.
pub open spec fn digits_val(s: Seq<char>) -> nat
    decreases s.len(),
{
    if s.len() == 0 {
        0
    } else {
        digits_val(s.drop_last()) * 10 + digit_val(s.last())
    }
}

pub open spec fn all_digits(s: Seq<char>) -> bool {
    forall|j: int| 0 <= j < s.len() ==> is_digit(#[trigger] s[j])
}

/// `s` without one leading plus sign.
pub open spec fn strip_plus(s: Seq<char>) -> Seq<char> {
    if s.len() > 0 && s[0] == '+' {
        s.drop_first()
    } else {
        s
    }
}

/// The unsigned decimal number denoted by `s`: an optional plus sign, then at
/// least one digit, with a value that fits in 64 bits; anything else is
/// rejected.
pub open spec fn parse_u64(s: Seq<char>) -> Option<u64> {
    let d = strip_plus(s);
    if d.len() > 0 && all_digits(d) && digits_val(d) <= u64::MAX {
        Some(digits_val(d) as u64)
    } else {
        None
    }
}

proof fn lemma_digits_val_take_monotonic(s: Seq<char>, k: int, l: int)
    requires
        0 <= k <= l <= s.len(),
    ensures
        digits_val(s.take(k)) <= digits_val(s.take(l)),
    decreases l - k,
{
    if k < l {
        lemma_digits_val_take_monotonic(s, k, l - 1);
        assert(s.take(l).drop_last() =~= s.take(l - 1));
        assert(digits_val(s.take(l)) == digits_val(s.take(l - 1)) * 10 + digit_val(
            s.take(l).last(),
        ));
    } else {
        assert(s.take(k) =~= s.take(l));
    }
}

/// Parse `s` as an unsigned decimal number, as [`parse_u64`] describes.
pub fn parse_u64_str(s: &str) -> (r: Option<u64>)
    ensures
        r == parse_u64(s@),
{
    let len = s.unicode_len();
    let start: usize = if len > 0 && s.get_char(0) == '+' {
        1
    } else {
        0
    };
    let ghost d = strip_plus(s@);
    proof {
        assert(d =~= s@.skip(start as int));
    }
    if start == len {
        return None;
    }
    let mut acc: u64 = 0;
    let mut i: usize = start;
    while i < len
        invariant
            len == s@.len(),
            start <= i <= len,
            start <= 1,
            d == strip_plus(s@),
            d == s@.skip(start as int),
            forall|j: int| 0 <= j < i - start ==> is_digit(#[trigger] d[j]),
            acc == digits_val(d.take(i - start)),
        decreases len - i,
    {
        let c = s.get_char(i);
        let v = c as u32;
        proof {
            assert(d[i - start] == s@[i as int]);
        }
        if v < 48 || v > 57 {
            proof {
                assert(!is_digit(d[i - start]));
            }
            return None;
        }
        let dv = (v - 48) as u64;
        proof {
            assert(d.take(i - start + 1).drop_last() =~= d.take(i - start));
            assert(d.take(i - start + 1).last() == d[i - start]);
        }
        let shifted = match acc.checked_mul(10) {
            Some(x) => x,
            None => {
                proof {
                    lemma_digits_overflow(d, i - start + 1);
                }
                return None;
            },
        };
        let next = match shifted.checked_add(dv) {
            Some(x) => x,
            None => {
                proof {
                    lemma_digits_overflow(d, i - start + 1);
                }
                return None;
            },
        };
        acc = next;
        i = i + 1;
    }
    proof {
        assert(d.take(d.len() as int) =~= d);
    }
    Some(acc)
}

proof fn lemma_digits_overflow(d: Seq<char>, l: int)
    requires
        0 < l <= d.len(),
        digits_val(d.take(l)) > u64::MAX,
    ensures
        !(digits_val(d) <= u64::MAX),
{
    lemma_digits_val_take_monotonic(d, l, d.len() as int);
    assert(d.take(d.len() as int) =~= d);
}

/// `p` is a prefix of `s`.
pub open spec fn has_prefix(s: Seq<char>, p: Seq<char>) -> bool {
    p.len() <= s.len() && s.subrange(0, p.len() as int) == p
}

/// Skip leading whitespace, then strip the token `tok`; the remainder, or
/// nothing when the token does not follow the whitespace.
pub open spec fn after_token(s: Seq<char>, tok: Seq<char>) -> Option<Seq<char>> {
    let t = trim_front(s);
    if has_prefix(t, tok) {
        Some(t.skip(tok.len() as int))
    } else {
        None
    }
}

fn trim_front_str<'a>(s: &'a str) -> (r: &'a str)
    ensures
        r@ == trim_front(s@),
{
    let len = s.unicode_len();
    let mut start: usize = 0;
    while start < len && is_wsp_char(s.get_char(start))
        invariant
            len == s@.len(),
            start <= len,
            forall|j: int| 0 <= j < start ==> is_wsp(s@[j]),
        decreases len - start,
    {
        start = start + 1;
    }
    proof {
        lemma_trim_front_range(s@, start as int);
    }
    s.substring_char(start, len)
}

fn strip_token<'a>(s: &'a str, tok: &str) -> (r: Option<&'a str>)
    ensures
        match r {
            Some(t) => after_token(s@, tok@) == Some(t@),
            None => after_token(s@, tok@) is None,
        },
{
    let t = trim_front_str(s);
    let tlen = t.unicode_len();
    let plen = tok.unicode_len();
    if plen > tlen {
        return None;
    }
    let mut i: usize = 0;
    while i < plen
        invariant
            t@ == trim_front(s@),
            tlen == t@.len(),
            plen == tok@.len(),
            plen <= tlen,
            i <= plen,
            forall|j: int| 0 <= j < i ==> t@[j] == tok@[j],
        decreases plen - i,
    {
        if t.get_char(i) != tok.get_char(i) {
            proof {
                if has_prefix(t@, tok@) {
                    assert(t@.subrange(0, plen as int) == tok@);
                    assert(t@.subrange(0, plen as int)[i as int] == t@[i as int]);
                    assert(false);
                }
            }
            return None;
        }
        i = i + 1;
    }
    proof {
        assert(t@.subrange(0, plen as int) =~= tok@);
    }
    Some(t.substring_char(plen, tlen))
}

/// A manifest header line: the tokens `Size`, `Chunks`, `File SHA` and
/// `Flags Name` in order, separated and surrounded by arbitrary (possibly
/// empty) whitespace, and nothing else.
pub open spec fn is_header_line(s: Seq<char>) -> bool {
    match after_token(s, "Size"@) {
        None => false,
        Some(s1) => match after_token(s1, "Chunks"@) {
            None => false,
            Some(s2) => match after_token(s2, "File SHA"@) {
                None => false,
                Some(s3) => match after_token(s3, "Flags Name"@) {
                    None => false,
                    Some(s4) => trim_front(s4).len() == 0,
                },
            },
        },
    }
}

/// Decide whether `s` is a manifest header line, as [`is_header_line`]
/// describes.
pub fn is_header_line_str(s: &str) -> (r: bool)
    ensures
        r == is_header_line(s@),
{
    let s1 = match strip_token(s, "Size") {
        None => {
            return false;
        },
        Some(t) => t,
    };
    let s2 = match strip_token(s1, "Chunks") {
        None => {
            return false;
        },
        Some(t) => t,
    };
    let s3 = match strip_token(s2, "File SHA") {
        None => {
            return false;
        },
        Some(t) => t,
    };
    let s4 = match strip_token(s3, "Flags Name") {
        None => {
            return false;
        },
        Some(t) => t,
    };
    let rest = trim_front_str(s4);
    rest.unicode_len() == 0
}

/// Relies on String::push: appends one character to the string.
#[verifier::external_body]
pub(crate) fn push_char(s: &mut String, c: char)
    ensures
        final(s)@ == old(s)@.push(c),
{
    s.push(c);
}

/// Character-wise string equality, specified as equality of the views.
pub fn str_eq(a: &str, b: &str) -> (r: bool)
    ensures
        r == (a@ == b@),
{
    let alen = a.unicode_len();
    let blen = b.unicode_len();
    if alen != blen {
        return false;
    }
    let mut i: usize = 0;
    while i < alen
        invariant
            alen == a@.len(),
            alen == b@.len(),
            i <= alen,
            forall|j: int| 0 <= j < i ==> a@[j] == b@[j],
        decreases alen - i,
    {
        if a.get_char(i) != b.get_char(i) {
            return false;
        }
        i = i + 1;
    }
    proof {
        assert(a@ =~= b@);
    }
    true
}

} // verus!
