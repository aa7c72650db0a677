//! Character classes of dice notation, and the removal of whitespace.
use vstd::prelude::*;
use vstd::std_specs::iter::IteratorSpec;

verus! {

/// The characters that carry the Unicode property `White_Space`.
pub open spec fn is_space(c: char) -> bool {
    let n = c as int;
    ||| 0x09 <= n <= 0x0D
    ||| n == 0x20
    ||| n == 0x85
    ||| n == 0xA0
    ||| n == 0x1680
    ||| 0x2000 <= n <= 0x200A
    ||| n == 0x2028
    ||| n == 0x2029
    ||| n == 0x202F
    ||| n == 0x205F
    ||| n == 0x3000
}

/// The ASCII decimal digits.
pub open spec fn is_digit(c: char) -> bool {
    '0' <= c <= '9'
}

/// The number that a decimal digit stands for.
pub open spec fn digit_value(c: char) -> int {
    c as int - '0' as int
}

/// `s` without its whitespace, the other characters in their order.
pub open spec fn stripped(s: Seq<char>) -> Seq<char>
    decreases s.len(),
{
    if s.len() == 0 {
        Seq::empty()
    } else if is_space(s.last()) {
        stripped(s.drop_last())
    } else {
        stripped(s.drop_last()).push(s.last())
    }
}

pub fn is_whitespace(c: char) -> (b: bool)
    ensures
        b == is_space(c),
{
    let n: u32 = c as u32;
    (0x09 <= n && n <= 0x0D) || n == 0x20 || n == 0x85 || n == 0xA0 || n == 0x1680 || (0x2000 <= n
        && n <= 0x200A) || n == 0x2028 || n == 0x2029 || n == 0x202F || n == 0x205F || n == 0x3000
}

pub fn is_decimal_digit(c: char) -> (b: bool)
    ensures
        b == is_digit(c),
{
    '0' <= c && c <= '9'
}

/// Copies the characters of `input` that are no whitespace, in their order.
pub fn strip_whitespace(input: &str) -> (out: Vec<char>)
    ensures
        out@ == stripped(input@),
{
    let mut out: Vec<char> = Vec::new();
    let mut rest = input.chars();
    let ghost mut seen: Seq<char> = Seq::empty();
    proof {
        assert(seen + rest.remaining() =~= input@);
    }
    loop
        invariant
            seen + rest.remaining() == input@,
            out@ == stripped(seen),
            rest.decrease() is Some,
        decreases rest.decrease()->0,
    {
        let ghost before = rest;
        match rest.next() {
            Some(c) => {
                proof {
                    assert(seen.push(c) + rest.remaining() =~= seen + before.remaining());
                    assert(seen.push(c).drop_last() =~= seen);
                    seen = seen.push(c);
                }
                if !is_whitespace(c) {
                    out.push(c);
                }
            },
            None => {
                proof {
                    assert(seen + before.remaining() =~= seen);
                }
                return out;
            },
        }
    }
}

/// Whitespace leaves no trace: stripping a concatenation strips its parts.
pub proof fn lemma_stripped_concat(a: Seq<char>, b: Seq<char>)
    ensures
        stripped(a + b) == stripped(a) + stripped(b),
    decreases b.len(),
{
    if b.len() == 0 {
        assert(a + b =~= a);
        assert(stripped(a) + stripped(b) =~= stripped(a));
    } else {
        assert((a + b).drop_last() =~= a + b.drop_last());
        assert((a + b).last() == b.last());
        lemma_stripped_concat(a, b.drop_last());
        if !is_space(b.last()) {
            assert(stripped(a + b) =~= stripped(a) + stripped(b));
        }
    }
}

/// A whitespace character put anywhere into a text does not change what is
/// left of it after stripping.
pub proof fn lemma_whitespace_is_insignificant(before: Seq<char>, w: char, after: Seq<char>)
    requires
        is_space(w),
    ensures
        stripped(before.push(w) + after) == stripped(before + after),
{
    lemma_stripped_concat(before.push(w), after);
    lemma_stripped_concat(before, after);
    assert(before.push(w).drop_last() =~= before);
}

/// Stripping a stripped text changes nothing.
pub proof fn lemma_stripped_is_idempotent(s: Seq<char>)
    ensures
        stripped(stripped(s)) == stripped(s),
        forall|i: int| 0 <= i < stripped(s).len() ==> !is_space(#[trigger] stripped(s)[i]),
    decreases s.len(),
{
    if s.len() > 0 {
        lemma_stripped_is_idempotent(s.drop_last());
        if !is_space(s.last()) {
            let t = stripped(s.drop_last());
            assert(stripped(s).drop_last() =~= t);
        }
    }
}

} // verus!
