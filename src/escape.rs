//! Decoding of `\u` escapes in icon strings: `\u` followed by hexadecimal
//! digits stands for the character with that code; an escape that names no
//! character is kept as written.

use vstd::prelude::*;

verus! {

/// An ASCII hexadecimal digit.
pub open spec fn is_hex(c: char) -> bool {
    ('0' as u32 <= c as u32 && c as u32 <= '9' as u32) || ('a' as u32 <= c as u32 && c as u32 <= 'f' as u32)
        || ('A' as u32 <= c as u32 && c as u32 <= 'F' as u32)
}

/// Value of a hexadecimal digit.
pub open spec fn hex_digit(c: char) -> nat {
    if '0' as u32 <= c as u32 && c as u32 <= '9' as u32 {
        (c as u32 - '0' as u32) as nat
    } else if 'a' as u32 <= c as u32 && c as u32 <= 'f' as u32 {
        (c as u32 - 'a' as u32 + 10) as nat
    } else {
        (c as u32 - 'A' as u32 + 10) as nat
    }
}

/// Value of a run of hexadecimal digits.
pub open spec fn hex_value(s: Seq<char>) -> nat
    decreases s.len(),
{
    if s.len() == 0 {
        0
    } else {
        hex_value(s.drop_last()) * 16 + hex_digit(s.last())
    }
}

/// Length of the run of hexadecimal digits that `s` begins with.
pub open spec fn hex_run(s: Seq<char>) -> nat
    decreases s.len(),
{
    if s.len() > 0 && is_hex(s[0]) {
        1 + hex_run(s.drop_first())
    } else {
        0
    }
}

/// A code that names a character: below the surrogates, or above them and
/// below 0x110000.
pub open spec fn is_scalar(v: nat) -> bool {
    v < 0xD800 || (0xE000 <= v && v < 0x110000)
}

/// The code of a character.
pub open spec fn code_of(c: char) -> int {
    c as int
}

/// The character with code `v`.
pub open spec fn char_with_code(v: nat) -> char {
    choose|c: char| #[trigger] code_of(c) == v
}

/// `s` with each `\u` escape that names a character replaced by it.
pub open spec fn unescaped(s: Seq<char>) -> Seq<char>
    decreases s.len() via lemma_unescaped_decreases
{
    if s.len() == 0 {
        Seq::empty()
    } else if s.len() >= 2 && s[0] == '\\' && s[1] == 'u' {
        let k = hex_run(s.subrange(2, s.len() as int)) as int;
        let digits = s.subrange(2, 2 + k);
        let rest = s.subrange(2 + k, s.len() as int);
        if k > 0 && hex_value(digits) <= u32::MAX && is_scalar(hex_value(digits)) {
            seq![char_with_code(hex_value(digits))] + unescaped(rest)
        } else {
            seq!['\\', 'u'] + digits + unescaped(rest)
        }
    } else {
        seq![s[0]] + unescaped(s.drop_first())
    }
}

#[via_fn]
proof fn lemma_unescaped_decreases(s: Seq<char>) {
    if s.len() >= 2 {
        lemma_hex_run_bound(s.subrange(2, s.len() as int));
    }
}

/// Relies on `char::from_u32`: a character exactly for the codes that name
/// one, and then the character with that code.
#[verifier::external_body]
fn char_from_code(v: u32) -> (r: Option<char>)
    ensures
        r is Some <==> is_scalar(v as nat),
        r matches Some(c) ==> code_of(c) == v as int,
{
    char::from_u32(v)
}

/// Relies on `String::push`: appends the character.
#[verifier::external_body]
fn push_char(s: &mut String, c: char)
    ensures
        final(s)@ == old(s)@.push(c),
{
    s.push(c);
}

fn hex_char(c: char) -> (r: bool)
    ensures
        r == is_hex(c),
{
    ('0' <= c && c <= '9') || ('a' <= c && c <= 'f') || ('A' <= c && c <= 'F')
}

fn digit_of(c: char) -> (r: u64)
    requires
        is_hex(c),
    ensures
        r as nat == hex_digit(c),
        r < 16,
{
    if '0' <= c && c <= '9' {
        (c as u32 - '0' as u32) as u64
    } else if 'a' <= c && c <= 'f' {
        (c as u32 - 'a' as u32 + 10) as u64
    } else {
        (c as u32 - 'A' as u32 + 10) as u64
    }
}

proof fn lemma_hex_run_bound(s: Seq<char>)
    ensures
        hex_run(s) <= s.len(),
        forall|i: int| 0 <= i < hex_run(s) ==> is_hex(#[trigger] s[i]),
        hex_run(s) < s.len() ==> !is_hex(s[hex_run(s) as int]),
    decreases s.len(),
{
    if s.len() > 0 && is_hex(s[0]) {
        lemma_hex_run_bound(s.drop_first());
        assert forall|i: int| 0 <= i < hex_run(s) implies is_hex(#[trigger] s[i]) by {
            if i > 0 {
                assert(s[i] == s.drop_first()[i - 1]);
            }
        }
    }
}

proof fn lemma_hex_value_grows(s: Seq<char>, c: char)
    ensures
        hex_value(s.push(c)) >= hex_value(s),
        hex_value(s.push(c)) == hex_value(s) * 16 + hex_digit(c),
{
    assert(s.push(c).drop_last() == s);
}

/// Replaces each `\u` escape that names a character by that character; an
/// escape without digits, or whose digits name no character, stays as it is.
pub fn _convert_unicode_escapes(input: &str) -> (r: String)
    ensures
        r@ == unescaped(input@),
{
    let n = input.unicode_len();
    let mut output = String::new();
    let mut i: usize = 0;
    assert(input@.subrange(0, n as int) == input@);
    while i < n
        invariant
            n == input@.len(),
            i <= n,
            output@ + unescaped(input@.subrange(i as int, n as int)) == unescaped(input@),
        decreases n - i,
    {
        let ghost s = input@.subrange(i as int, n as int);
        let ch = input.get_char(i);
        if ch == '\\' && i + 1 < n && input.get_char(i + 1) == 'u' {
            let ghost t = s.subrange(2, s.len() as int);
            proof {
                lemma_hex_run_bound(t);
            }
            let start = i + 2;
            let mut j: usize = start;
            let mut value: u64 = 0;
            let mut big = false;
            while j < n && hex_char(input.get_char(j))
                invariant
                    n == input@.len(),
                    start <= j <= n,
                    start == i + 2,
                    t == input@.subrange(start as int, n as int),
                    j - start <= hex_run(t),
                    forall|q: int| 0 <= q < j - start ==> is_hex(#[trigger] t[q]),
                    big == (hex_value(input@.subrange(start as int, j as int)) > u32::MAX),
                    !big ==> value as nat == hex_value(input@.subrange(start as int, j as int)),
                    value <= u32::MAX,
                decreases n - j,
            {
                let c = input.get_char(j);
                let d = digit_of(c);
                let ghost prev = input@.subrange(start as int, j as int);
                assert(t[(j - start) as int] == c);
                assert(input@.subrange(start as int, j + 1) == prev.push(c));
                proof {
                    lemma_hex_value_grows(prev, c);
                    lemma_hex_run_step(t, (j - start) as int);
                }
                if !big {
                    let next = value * 16 + d;
                    if next > 0xFFFF_FFFF {
                        big = true;
                    } else {
                        value = next;
                    }
                }
                j = j + 1;
            }
            proof {
                if j - start < hex_run(t) {
                    assert(is_hex(t[(j - start) as int]));
                    assert(t[(j - start) as int] == input@[j as int]);
                }
                assert(j - start == hex_run(t));
                assert(s.subrange(2, 2 + hex_run(t) as int) == input@.subrange(start as int, j as int));
                assert(s.subrange(2 + hex_run(t) as int, s.len() as int) == input@.subrange(j as int, n as int));
                assert(s[0] == '\\' && s[1] == 'u');
            }
            let digits = input.substring_char(start, j);
            if j > start && !big {
                if let Some(c) = char_from_code(value as u32) {
                    proof {
                        assert(code_of(c) == hex_value(digits@));
                        assert(code_of(char_with_code(hex_value(digits@))) == hex_value(digits@));
                        assert(char_with_code(hex_value(digits@)) == c);
                    }
                    let ghost before = output@;
                    push_char(&mut output, c);
                    proof {
                        assert(output@ + unescaped(input@.subrange(j as int, n as int)) == before + unescaped(s)) by {
                            assert(unescaped(s) == seq![c] + unescaped(input@.subrange(j as int, n as int)));
                        }
                    }
                    i = j;
                    continue;
                }
            }
            let ghost before = output@;
            push_char(&mut output, '\\');
            push_char(&mut output, 'u');
            output.append(digits);
            proof {
                assert(unescaped(s) == seq!['\\', 'u'] + digits@ + unescaped(input@.subrange(j as int, n as int)));
                assert(output@ + unescaped(input@.subrange(j as int, n as int)) =~= before + unescaped(s));
            }
            i = j;
        } else {
            let ghost before = output@;
            push_char(&mut output, ch);
            proof {
                assert(s[0] == ch);
                assert(s.drop_first() == input@.subrange(i + 1, n as int));
                assert(!(s.len() >= 2 && s[0] == '\\' && s[1] == 'u')) by {
                    if s.len() >= 2 {
                        assert(s[1] == input@[i + 1]);
                    }
                }
                assert(output@ + unescaped(input@.subrange(i + 1, n as int)) =~= before + unescaped(s));
            }
            i = i + 1;
        }
    }
    assert(output@ + unescaped(input@.subrange(n as int, n as int)) == output@ + Seq::<char>::empty());
    assert(output@ =~= output@ + Seq::<char>::empty());
    output
}

proof fn lemma_hex_run_step(t: Seq<char>, k: int)
    requires
        0 <= k < t.len(),
        k <= hex_run(t),
        is_hex(t[k]),
        forall|i: int| 0 <= i < k ==> is_hex(#[trigger] t[i]),
    ensures
        k + 1 <= hex_run(t),
    decreases t.len(),
{
    lemma_hex_run_bound(t);
    if k == hex_run(t) {
        assert(!is_hex(t[k]));
    }
}

} // verus!
