//! Text rendering used by the query responses: decimal and hexadecimal
//! numbers, JSON string escaping and JSON string arrays.
use vstd::prelude::*;

verus! {

/// The character of a decimal digit.
pub open spec fn digit_char(d: nat) -> char {
    "0123456789"@[d as int]
}

/// The character of a hexadecimal digit (lower case).
pub open spec fn hex_digit_char(d: nat) -> char {
    "0123456789abcdef"@[d as int]
}

/// The decimal rendering of `n`, without sign or leading zeros.
pub open spec fn decimal(n: nat) -> Seq<char>
    decreases n,
{
    if n < 10 {
        seq![digit_char(n)]
    } else {
        decimal(n / 10).push(digit_char(n % 10))
    }
}

/// Two lower-case hexadecimal digits per byte, most significant first.
pub open spec fn hex_of(b: Seq<u8>) -> Seq<char>
    decreases b.len(),
{
    if b.len() == 0 {
        Seq::empty()
    } else {
        hex_of(b.drop_last()).push(hex_digit_char((b.last() / 16) as nat)).push(
            hex_digit_char((b.last() % 16) as nat),
        )
    }
}

/// A character as it stands inside a JSON string: backslash and double
/// quote are preceded by a backslash.
pub open spec fn escape_char(c: char) -> Seq<char> {
    if c == '\\' {
        seq!['\\', '\\']
    } else if c == '"' {
        seq!['\\', '"']
    } else {
        seq![c]
    }
}

/// A text with every backslash and double quote escaped.
pub open spec fn escape(s: Seq<char>) -> Seq<char>
    decreases s.len(),
{
    if s.len() == 0 {
        Seq::empty()
    } else {
        escape(s.drop_last()) + escape_char(s.last())
    }
}

/// A JSON string literal holding `s`.
pub open spec fn quoted(s: Seq<char>) -> Seq<char> {
    seq!['"'] + escape(s) + seq!['"']
}

/// The JSON string literals of `v`, separated by commas.
pub open spec fn quoted_list(v: Seq<Seq<char>>) -> Seq<char>
    decreases v.len(),
{
    if v.len() == 0 {
        Seq::empty()
    } else if v.len() == 1 {
        quoted(v[0])
    } else {
        quoted_list(v.drop_last()) + seq![','] + quoted(v.last())
    }
}

/// The texts `parts` separated by commas.
pub open spec fn comma_join(parts: Seq<Seq<char>>) -> Seq<char>
    decreases parts.len(),
{
    if parts.len() == 0 {
        Seq::empty()
    } else if parts.len() == 1 {
        parts[0]
    } else {
        comma_join(parts.drop_last()) + seq![','] + parts.last()
    }
}

/// Appending one more part to a comma-separated list.
pub proof fn lemma_comma_join_push(parts: Seq<Seq<char>>, p: Seq<char>)
    ensures
        comma_join(parts.push(p)) == if parts.len() == 0 {
            p
        } else {
            comma_join(parts) + seq![','] + p
        },
{
    assert(parts.push(p).drop_last() =~= parts);
}

/// A JSON array of the strings `v`.
pub open spec fn string_array(v: Seq<Seq<char>>) -> Seq<char> {
    seq!['['] + quoted_list(v) + seq![']']
}

/// The decimal characters of digits stored least significant first.
pub open spec fn digits_text(d: Seq<u8>) -> Seq<char>
    decreases d.len(),
{
    if d.len() == 0 {
        Seq::empty()
    } else {
        seq![digit_char(d.last() as nat)] + digits_text(d.drop_last())
    }
}

/// Appends the decimal digit `d` to `out`.
fn push_digit(out: &mut String, d: u8)
    requires
        d < 10,
    ensures
        final(out)@ == old(out)@.push(digit_char(d as nat)),
{
    let table = "0123456789";
    proof {
        reveal_strlit("0123456789");
    }
    let one = table.substring_char(d as usize, d as usize + 1);
    assert(one@ =~= seq![digit_char(d as nat)]);
    out.append(one);
}

/// Appends the hexadecimal digit `d` to `out`.
fn push_hex_digit(out: &mut String, d: u8)
    requires
        d < 16,
    ensures
        final(out)@ == old(out)@.push(hex_digit_char(d as nat)),
{
    let table = "0123456789abcdef";
    proof {
        reveal_strlit("0123456789abcdef");
    }
    let one = table.substring_char(d as usize, d as usize + 1);
    assert(one@ =~= seq![hex_digit_char(d as nat)]);
    out.append(one);
}

/// Appends the decimal rendering of `n` to `out`.
pub fn push_decimal(out: &mut String, n: u64)
    ensures
        final(out)@ == old(out)@ + decimal(n as nat),
{
    let d = u64_to_string(n);
    out.append(d.as_str());
}

/// Renders `n` in decimal.
pub fn u64_to_string(n: u64) -> (r: String)
    ensures
        r@ == decimal(n as nat),
{
    let mut digits: Vec<u8> = Vec::new();
    let mut m: u64 = n;
    loop
        invariant_except_break
            decimal(n as nat) == decimal(m as nat) + digits_text(digits@),
        invariant
            forall|j: int| 0 <= j < digits.len() ==> digits[j] < 10,
        ensures
            decimal(n as nat) == digits_text(digits@),
        decreases m,
    {
        let ghost old_digits = digits@;
        digits.push((m % 10) as u8);
        assert(digits@.drop_last() =~= old_digits);
        if m < 10 {
            assert(decimal(n as nat) =~= digits_text(digits@));
            break;
        }
        assert(decimal(m as nat) == decimal((m / 10) as nat).push(digit_char((m % 10) as nat)));
        assert(decimal(n as nat) =~= decimal((m / 10) as nat) + digits_text(digits@));
        m = m / 10;
    }
    let mut out = String::new();
    let mut i: usize = digits.len();
    assert(digits@.subrange(0, i as int) =~= digits@);
    assert(out@ + digits_text(digits@) =~= digits_text(digits@));
    while i > 0
        invariant
            i <= digits.len(),
            forall|j: int| 0 <= j < digits.len() ==> digits[j] < 10,
            out@ + digits_text(digits@.subrange(0, i as int)) == digits_text(digits@),
        decreases i,
    {
        let ghost before = out@;
        push_digit(&mut out, digits[i - 1]);
        assert(digits@.subrange(0, i as int).drop_last() =~= digits@.subrange(0, i - 1));
        assert(out@ + digits_text(digits@.subrange(0, i - 1)) =~= before + digits_text(
            digits@.subrange(0, i as int),
        ));
        i = i - 1;
    }
    assert(digits@.subrange(0, 0) =~= Seq::<u8>::empty());
    assert(out@ =~= digits_text(digits@));
    out
}

/// Lower-case hexadecimal rendering of `b`, two digits per byte.
pub fn bytes_to_hex(b: &Vec<u8>) -> (r: String)
    ensures
        r@ == hex_of(b@),
{
    let mut out = String::new();
    let mut i: usize = 0;
    while i < b.len()
        invariant
            i <= b.len(),
            out@ == hex_of(b@.subrange(0, i as int)),
        decreases b.len() - i,
    {
        push_hex_digit(&mut out, b[i] / 16);
        push_hex_digit(&mut out, b[i] % 16);
        assert(b@.subrange(0, i + 1).drop_last() =~= b@.subrange(0, i as int));
        i = i + 1;
    }
    assert(b@.subrange(0, b.len() as int) =~= b@);
    out
}

/// Appends `s` to `out` with every backslash and double quote escaped.
pub fn push_escaped(out: &mut String, s: &str)
    ensures
        final(out)@ == old(out)@ + escape(s@),
{
    let n = s.unicode_len();
    let mut i: usize = 0;
    proof {
        reveal_strlit("\\\\");
        reveal_strlit("\\\"");
    }
    assert(old(out)@ + escape(s@.subrange(0, 0)) =~= old(out)@);
    while i < n
        invariant
            i <= n,
            n == s@.len(),
            out@ == old(out)@ + escape(s@.subrange(0, i as int)),
        decreases n - i,
    {
        let c = s.get_char(i);
        let ghost before = out@;
        proof {
            reveal_strlit("\\\\");
            reveal_strlit("\\\"");
        }
        if c == '\\' {
            out.append("\\\\");
            assert(out@ =~= before + escape_char(c));
        } else if c == '"' {
            out.append("\\\"");
            assert(out@ =~= before + escape_char(c));
        } else {
            let one = s.substring_char(i, i + 1);
            assert(one@ =~= seq![c]);
            out.append(one);
        }
        assert(out@ =~= before + escape_char(c));
        assert(s@.subrange(0, i + 1).drop_last() =~= s@.subrange(0, i as int));
        assert(escape(s@.subrange(0, i + 1)) == escape(s@.subrange(0, i as int)) + escape_char(c));
        assert(out@ =~= old(out)@ + escape(s@.subrange(0, i + 1)));
        i = i + 1;
    }
    assert(s@.subrange(0, n as int) =~= s@);
}

/// `s` with every backslash and double quote escaped.
pub fn json_escape(s: &str) -> (r: String)
    ensures
        r@ == escape(s@),
{
    let mut out = String::new();
    push_escaped(&mut out, s);
    assert(out@ =~= escape(s@));
    out
}

/// Appends the JSON string literal of `s` to `out`.
pub fn push_quoted(out: &mut String, s: &str)
    ensures
        final(out)@ == old(out)@ + quoted(s@),
{
    proof {
        reveal_strlit("\"");
    }
    out.append("\"");
    push_escaped(out, s);
    out.append("\"");
    assert(final(out)@ =~= old(out)@ + quoted(s@));
}

/// Whether `c` is a decimal digit.
pub open spec fn is_digit(c: char) -> bool {
    '0' <= c && c <= '9'
}

/// The value of the decimal digits `s`, most significant first.
pub open spec fn digits_value(s: Seq<char>) -> nat
    decreases s.len(),
{
    if s.len() == 0 {
        0
    } else {
        digits_value(s.drop_last()) * 10 + (s.last() as nat - '0' as nat) as nat
    }
}

/// The digits of an unsigned decimal literal: an optional leading `+`
/// is not part of them.
pub open spec fn unsigned_body(s: Seq<char>) -> Seq<char> {
    if s.len() > 0 && s[0] == '+' {
        s.drop_first()
    } else {
        s
    }
}

/// The `u32` that the text `s` denotes as an unsigned decimal literal, if any.
pub open spec fn parse_u32_spec(s: Seq<char>) -> Option<u32> {
    let body = unsigned_body(s);
    if body.len() > 0 && (forall|i: int| 0 <= i < body.len() ==> is_digit(#[trigger] body[i]))
        && digits_value(body) <= u32::MAX {
        Some(digits_value(body) as u32)
    } else {
        None
    }
}

/// Reads `s` as an unsigned decimal `u32` (an optional `+`, then at least
/// one digit); `None` when it is not one or does not fit.
pub fn parse_u32(s: &str) -> (r: Option<u32>)
    ensures
        r == parse_u32_spec(s@),
{
    let n = s.unicode_len();
    let mut i: usize = 0;
    if n > 0 && s.get_char(0) == '+' {
        i = 1;
    }
    let start = i;
    let ghost body = unsigned_body(s@);
    assert(body =~= s@.subrange(start as int, n as int));
    if start == n {
        return None;
    }
    let mut value: u32 = 0;
    while i < n
        invariant
            start <= i <= n,
            n == s@.len(),
            body == s@.subrange(start as int, n as int),
            body == unsigned_body(s@),
            forall|j: int| start <= j < i ==> is_digit(#[trigger] s@[j]),
            value as nat == digits_value(s@.subrange(start as int, i as int)),
        decreases n - i,
    {
        let c = s.get_char(i);
        if !('0' <= c && c <= '9') {
            assert(body[i - start] == c);
            assert(!is_digit(body[i - start]));
            return None;
        }
        let d = (c as u32) - ('0' as u32);
        let ghost prefix = s@.subrange(start as int, i + 1);
        assert(prefix.drop_last() =~= s@.subrange(start as int, i as int));
        assert(digits_value(prefix) == value as nat * 10 + d as nat);
        if value > (u32::MAX - d) / 10 {
            assert(digits_value(prefix) > u32::MAX) by (nonlinear_arith)
                requires
                    value > (u32::MAX - d) / 10,
                    digits_value(prefix) == value as nat * 10 + d as nat,
            ;
            proof {
                if forall|j: int| 0 <= j < body.len() ==> is_digit(#[trigger] body[j]) {
                    assert(prefix =~= body.subrange(0, i + 1 - start));
                    lemma_digits_value_prefix_monotone(body, (i + 1 - start) as int);
                }
            }
            return None;
        }
        value = value * 10 + d;
        i = i + 1;
    }
    assert(s@.subrange(start as int, n as int) =~= body);
    Some(value)
}

/// Extending a string of digits never lowers its value.
proof fn lemma_digits_value_prefix_monotone(s: Seq<char>, k: int)
    requires
        0 <= k <= s.len(),
        forall|i: int| 0 <= i < s.len() ==> is_digit(#[trigger] s[i]),
    ensures
        digits_value(s.subrange(0, k)) <= digits_value(s),
    decreases s.len() - k,
{
    if k < s.len() {
        lemma_digits_value_prefix_monotone(s, k + 1);
        let p = s.subrange(0, k + 1);
        assert(p.drop_last() =~= s.subrange(0, k));
        assert(is_digit(s[k]));
    } else {
        assert(s.subrange(0, k) =~= s);
    }
}

/// The views of a vector of strings.
pub open spec fn views(v: Seq<String>) -> Seq<Seq<char>> {
    v.map_values(|s: String| s@)
}

/// Renders `v` as a JSON array of strings.
pub fn serialize_string_array(v: &Vec<String>) -> (r: String)
    ensures
        r@ == string_array(views(v@)),
{
    let mut out = String::new();
    proof {
        reveal_strlit("[");
        reveal_strlit("]");
        reveal_strlit(",");
    }
    out.append("[");
    let mut i: usize = 0;
    while i < v.len()
        invariant
            i <= v.len(),
            out@ == seq!['['] + quoted_list(views(v@.subrange(0, i as int))),
        decreases v.len() - i,
    {
        let ghost before = out@;
        proof {
            reveal_strlit(",");
        }
        if i > 0 {
            out.append(",");
        }
        push_quoted(&mut out, v[i].as_str());
        let ghost w = views(v@.subrange(0, i + 1));
        assert(w.drop_last() =~= views(v@.subrange(0, i as int)));
        assert(w.last() == v@[i as int]@);
        if i == 0 {
            assert(out@ =~= seq!['['] + quoted_list(w));
        } else {
            assert(quoted_list(w) == quoted_list(w.drop_last()) + seq![','] + quoted(w.last()));
            assert(out@ =~= seq!['['] + quoted_list(w));
        }
        i = i + 1;
    }
    assert(v@.subrange(0, v.len() as int) =~= v@);
    out.append("]");
    assert(out@ =~= string_array(views(v@)));
    out
}

} // verus!
