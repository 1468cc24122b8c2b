//! Text helpers: decimal rendering, file-name sanitising and the label tables.
use vstd::prelude::*;

verus! {

/// Appends one character to a string (std's `String::push`).
#[verifier::external_body]
pub(crate) fn push_char(s: &mut String, c: char)
    ensures
        final(s)@ == old(s)@.push(c),
{
    s.push(c);
}

/// Whether `c` is kept unchanged by `safe_name`.
pub open spec fn is_safe_char(c: char) -> bool {
    ('0' <= c <= '9') || ('a' <= c <= 'z') || ('A' <= c <= 'Z') || c == '-' || c == '_'
}

pub open spec fn safe_char(c: char) -> char {
    if is_safe_char(c) { c } else { '_' }
}

/// The sanitised form of a name: every character outside ASCII letters, digits,
/// `-` and `_` becomes `_`; an empty result becomes `section`.
pub open spec fn spec_safe_name(value: Seq<char>) -> Seq<char> {
    if value.len() == 0 {
        "section"@
    } else {
        value.map_values(|c: char| safe_char(c))
    }
}

pub fn safe_name(value: &str) -> (name: String)
    ensures
        name@ == spec_safe_name(value@),
{
    broadcast use vstd::string::axiom_spec_iter;
    let mut name = String::new();
    let mut any = false;
    for c in it: value.chars()
        invariant
            name@ == value@.take(it.index() as int).map_values(|c: char| safe_char(c)),
            it.seq() == value@,
            any == (it.index() > 0),
    {
        let keep = ('0' <= c && c <= '9') || ('a' <= c && c <= 'z') || ('A' <= c && c <= 'Z')
            || c == '-' || c == '_';
        let kept = if keep { c } else { '_' };
        push_char(&mut name, kept);
        any = true;
    }
    if !any {
        String::from_str("section")
    } else {
        name
    }
}

/// A sanitised name is never empty, holds only ASCII letters, digits, `-` and `_`, and
/// keeps the length of a non-empty input.
pub proof fn lemma_safe_name_is_safe(value: Seq<char>)
    ensures
        spec_safe_name(value).len() > 0,
        forall|i: int| 0 <= i < spec_safe_name(value).len() ==> is_safe_char(#[trigger] spec_safe_name(value)[i]),
        value.len() > 0 ==> spec_safe_name(value).len() == value.len(),
{
    reveal_strlit("section");
}

/// Sanitising keeps every ASCII letter, digit, `-` and `_` where it stands and puts `_`
/// in place of every other character; only an empty name becomes `section`.
pub proof fn lemma_safe_name_characters(value: Seq<char>)
    ensures
        value.len() > 0 ==> spec_safe_name(value).len() == value.len(),
        value.len() > 0 ==> forall|i: int|
            0 <= i < value.len() ==> #[trigger] spec_safe_name(value)[i] == if ('a' <= value[i]
                && value[i] <= 'z') || ('A' <= value[i] && value[i] <= 'Z') || ('0' <= value[i]
                && value[i] <= '9') || value[i] == '-' || value[i] == '_' {
                value[i]
            } else {
                '_'
            },
        value.len() == 0 ==> spec_safe_name(value) == seq!['s', 'e', 'c', 't', 'i', 'o', 'n'],
{
    reveal_strlit("section");
    if value.len() == 0 {
        assert(spec_safe_name(value) =~= seq!['s', 'e', 'c', 't', 'i', 'o', 'n']);
    }
}

/// Sanitising a sanitised name changes nothing.
pub proof fn lemma_safe_name_idempotent(value: Seq<char>)
    ensures
        spec_safe_name(spec_safe_name(value)) == spec_safe_name(value),
{
    lemma_safe_name_is_safe(value);
    let once = spec_safe_name(value);
    assert(spec_safe_name(once) =~= once);
}

/// The character of a decimal digit.
pub open spec fn digit_char(d: nat) -> char {
    (48 + d) as char
}

/// The decimal representation of a natural number, most significant digit first.
pub open spec fn decimal(n: nat) -> Seq<char>
    decreases n,
{
    if n < 10 {
        seq![digit_char(n)]
    } else {
        decimal(n / 10).push(digit_char(n % 10))
    }
}

/// The decimal representation of an integer, with a leading `-` when negative.
pub open spec fn signed_decimal(v: int) -> Seq<char> {
    if v < 0 {
        seq!['-'] + decimal((-v) as nat)
    } else {
        decimal(v as nat)
    }
}

/// Whether `c` is one of the characters `0` to `9`.
pub open spec fn is_digit(c: char) -> bool {
    '0' <= c && c <= '9'
}

/// The number that a string of decimal digits denotes, read most significant digit first.
pub open spec fn digits_value(s: Seq<char>) -> int
    decreases s.len(),
{
    if s.len() == 0 {
        0
    } else {
        digits_value(s.drop_last()) * 10 + (s.last() as int - '0' as int)
    }
}

/// The decimal form of `n` consists of digits, reads back as `n`, and starts with `0`
/// only when it is the single digit of 0; it is one character long exactly below 10.
pub proof fn lemma_decimal_reads_back(n: nat)
    ensures
        decimal(n).len() >= 1,
        forall|i: int| 0 <= i < decimal(n).len() ==> is_digit(#[trigger] decimal(n)[i]),
        digits_value(decimal(n)) == n,
        n > 0 ==> decimal(n)[0] != '0',
        (decimal(n).len() == 1) == (n < 10),
    decreases n,
{
    if n >= 10 {
        lemma_decimal_reads_back(n / 10);
        let prefix = decimal(n / 10);
        assert(decimal(n).drop_last() =~= prefix);
        assert(decimal(n)[0] == prefix[0]);
        assert(decimal(n).last() == digit_char(n % 10));
        assert(digit_char(n % 10) as int == 48 + n % 10);
        assert('0' as int == 48);
        assert(digits_value(decimal(n)) == digits_value(prefix) * 10 + (n % 10));
    } else {
        assert(digit_char(n) as int == 48 + n);
        assert('0' as int == 48);
        assert(decimal(n).drop_last() =~= Seq::<char>::empty());
        assert(digits_value(Seq::<char>::empty()) == 0);
        assert(digits_value(decimal(n)) == digits_value(decimal(n).drop_last()) * 10 + (decimal(
            n,
        ).last() as int - '0' as int));
    }
}

proof fn lemma_leading_zero_value(s: Seq<char>)
    ensures
        digits_value(seq!['0'] + s) == digits_value(s),
    decreases s.len(),
{
    if s.len() > 0 {
        lemma_leading_zero_value(s.drop_last());
        assert((seq!['0'] + s).drop_last() =~= seq!['0'] + s.drop_last());
        assert((seq!['0'] + s).last() == s.last());
    } else {
        assert((seq!['0'] + s).drop_last() =~= Seq::<char>::empty());
        assert(seq!['0'] + s =~= seq!['0']);
        assert(digits_value(Seq::<char>::empty()) == 0);
        assert(digits_value(seq!['0']) == digits_value(seq!['0'].drop_last()) * 10 + ('0' as int
            - '0' as int));
        assert(digits_value(s) == 0);
    }
}

/// The two-digit form of `n` (`{:02}`) consists of digits, reads back as `n`, and is as long
/// as the decimal form of `n` but never shorter than two characters.
pub proof fn lemma_two_digit_decimal(n: nat)
    ensures
        two_digit_decimal(n).len() == if decimal(n).len() < 2 {
            2
        } else {
            decimal(n).len()
        },
        forall|i: int|
            0 <= i < two_digit_decimal(n).len() ==> is_digit(#[trigger] two_digit_decimal(n)[i]),
        digits_value(two_digit_decimal(n)) == n,
{
    lemma_decimal_reads_back(n);
    lemma_leading_zero_value(decimal(n));
    if n < 10 {
        assert forall|i: int| 0 <= i < two_digit_decimal(n).len() implies is_digit(
            #[trigger] two_digit_decimal(n)[i],
        ) by {
            if i > 0 {
                assert(two_digit_decimal(n)[i] == decimal(n)[i - 1]);
            }
        }
    }
}

/// A number rendered with at least two digits (`{:02}`).
pub open spec fn two_digit_decimal(n: nat) -> Seq<char> {
    if n < 10 {
        seq!['0'] + decimal(n)
    } else {
        decimal(n)
    }
}

pub fn append_decimal(s: &mut String, n: u64)
    ensures
        final(s)@ == old(s)@ + decimal(n as nat),
    decreases n,
{
    if n >= 10 {
        append_decimal(s, n / 10);
    }
    let d: u8 = (n % 10) as u8;
    let c: char = (48u8 + d) as char;
    push_char(s, c);
}

pub fn append_signed_decimal(s: &mut String, v: i64)
    ensures
        final(s)@ == old(s)@ + signed_decimal(v as int),
{
    if v < 0 {
        push_char(s, '-');
        let magnitude: u64 = if v == i64::MIN {
            9223372036854775808u64
        } else {
            (-v) as u64
        };
        append_decimal(s, magnitude);
    } else {
        append_decimal(s, v as u64);
    }
}

pub fn append_two_digit_decimal(s: &mut String, n: u64)
    ensures
        final(s)@ == old(s)@ + two_digit_decimal(n as nat),
{
    if n < 10 {
        push_char(s, '0');
    }
    append_decimal(s, n);
}

pub open spec fn spec_gpu_compression_label(value: u32) -> Seq<char> {
    if value == 1 {
        "Unknown / Standard"@
    } else if value == 2 {
        "BC3 / DXT5"@
    } else if value == 3 {
        "BC7 / Standard"@
    } else if value == 4 {
        "BC7 / Rough"@
    } else if value == 5 {
        "BC7 / Roughest"@
    } else {
        "Unknown"@
    }
}

/// The labels of the GPU formats: 1 is "Unknown / Standard", 2 "BC3 / DXT5", 3 "BC7 /
/// Standard", 4 "BC7 / Rough", 5 "BC7 / Roughest", and every other code "Unknown".
pub proof fn lemma_gpu_compression_labels(value: u32)
    ensures
        spec_gpu_compression_label(value) == if value == 1 {
            seq!['U', 'n', 'k', 'n', 'o', 'w', 'n', ' ', '/', ' ', 'S', 't', 'a', 'n', 'd', 'a', 'r', 'd']
        } else if value == 2 {
            seq!['B', 'C', '3', ' ', '/', ' ', 'D', 'X', 'T', '5']
        } else if value == 3 {
            seq!['B', 'C', '7', ' ', '/', ' ', 'S', 't', 'a', 'n', 'd', 'a', 'r', 'd']
        } else if value == 4 {
            seq!['B', 'C', '7', ' ', '/', ' ', 'R', 'o', 'u', 'g', 'h']
        } else if value == 5 {
            seq!['B', 'C', '7', ' ', '/', ' ', 'R', 'o', 'u', 'g', 'h', 'e', 's', 't']
        } else {
            seq!['U', 'n', 'k', 'n', 'o', 'w', 'n']
        },
{
    reveal_strlit("Unknown / Standard");
    reveal_strlit("BC3 / DXT5");
    reveal_strlit("BC7 / Standard");
    reveal_strlit("BC7 / Rough");
    reveal_strlit("BC7 / Roughest");
    reveal_strlit("Unknown");
    assert("Unknown / Standard"@ =~= seq!['U', 'n', 'k', 'n', 'o', 'w', 'n', ' ', '/', ' ', 'S', 't', 'a', 'n', 'd', 'a', 'r', 'd']);
    assert("BC3 / DXT5"@ =~= seq!['B', 'C', '3', ' ', '/', ' ', 'D', 'X', 'T', '5']);
    assert("BC7 / Standard"@ =~= seq!['B', 'C', '7', ' ', '/', ' ', 'S', 't', 'a', 'n', 'd', 'a', 'r', 'd']);
    assert("BC7 / Rough"@ =~= seq!['B', 'C', '7', ' ', '/', ' ', 'R', 'o', 'u', 'g', 'h']);
    assert("BC7 / Roughest"@ =~= seq!['B', 'C', '7', ' ', '/', ' ', 'R', 'o', 'u', 'g', 'h', 'e', 's', 't']);
    assert("Unknown"@ =~= seq!['U', 'n', 'k', 'n', 'o', 'w', 'n']);
}

/// The display name of a GPU block-compression format code.
pub fn gpu_compression_label(value: u32) -> (label: &'static str)
    ensures
        label@ == spec_gpu_compression_label(value),
{
    match value {
        1 => "Unknown / Standard",
        2 => "BC3 / DXT5",
        3 => "BC7 / Standard",
        4 => "BC7 / Rough",
        5 => "BC7 / Roughest",
        _ => "Unknown",
    }
}

pub open spec fn spec_end_action_label(value: i32) -> Seq<char> {
    if value == 0 {
        "Stop"@
    } else if value == 100 {
        "Loop"@
    } else if value == 200 {
        "Play section"@
    } else {
        "Unknown"@
    }
}

/// The labels of the end actions: 0 is "Stop", 100 "Loop", 200 "Play section", and every
/// other action "Unknown".
pub proof fn lemma_end_action_labels(value: i32)
    ensures
        spec_end_action_label(value) == if value == 0 {
            seq!['S', 't', 'o', 'p']
        } else if value == 100 {
            seq!['L', 'o', 'o', 'p']
        } else if value == 200 {
            seq!['P', 'l', 'a', 'y', ' ', 's', 'e', 'c', 't', 'i', 'o', 'n']
        } else {
            seq!['U', 'n', 'k', 'n', 'o', 'w', 'n']
        },
{
    reveal_strlit("Stop");
    reveal_strlit("Loop");
    reveal_strlit("Play section");
    reveal_strlit("Unknown");
    assert("Stop"@ =~= seq!['S', 't', 'o', 'p']);
    assert("Loop"@ =~= seq!['L', 'o', 'o', 'p']);
    assert("Play section"@ =~= seq!['P', 'l', 'a', 'y', ' ', 's', 'e', 'c', 't', 'i', 'o', 'n']);
    assert("Unknown"@ =~= seq!['U', 'n', 'k', 'n', 'o', 'w', 'n']);
}

/// The display name of a section's end action.
pub fn end_action_label(value: i32) -> (label: &'static str)
    ensures
        label@ == spec_end_action_label(value),
{
    match value {
        0 => "Stop",
        100 => "Loop",
        200 => "Play section",
        _ => "Unknown",
    }
}

} // verus!
