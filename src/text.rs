use vstd::prelude::*;
use vstd::string::{StrSliceExecFns, StringExecFns};

verus! {

/// The longest text, in bytes, that a label or name may have.
pub const MAX_TEXT: usize = 1_000_000;

/// The length of `s` in bytes of UTF-8.
pub open spec fn text_len(s: String) -> nat {
    vstd::utf8::encode_utf8(s@).len()
}

/// The length of `s` in bytes of UTF-8.
pub fn byte_len(s: &String) -> (n: usize)
    requires
        text_len(*s) <= MAX_TEXT,
    ensures
        n == text_len(*s),
{
    s.as_str().len()
}

/// `v / 2` rounded toward zero, as integer division does on machine integers.
pub open spec fn half_toward_zero(v: int) -> int {
    if v >= 0 { v / 2 } else { -((-v) / 2) }
}

pub fn halve(v: i64) -> (r: i64)
    requires
        v > i64::MIN,
    ensures
        r == half_toward_zero(v as int),
{
    if v >= 0 { v / 2 } else { -((-v) / 2) }
}

/// `s` without its double quotes.
pub open spec fn without_quotes(s: Seq<char>) -> Seq<char>
    decreases s.len(),
{
    if s.len() == 0 {
        s
    } else {
        without_quotes(s.drop_last()) + if s.last() == '"' { Seq::<char>::empty() } else { seq![s.last()] }
    }
}

/// Removes every double quote from `s`.
pub fn strip_quotes(s: &String) -> (r: String)
    ensures
        r@ == without_quotes(s@),
{
    let text = s.as_str();
    let n = text.unicode_len();
    let mut out = String::new();
    let mut start: usize = 0;
    let mut i: usize = 0;
    proof {
        assert(s@.subrange(0, 0) =~= Seq::<char>::empty());
        assert(out@ + s@.subrange(0, 0) =~= Seq::<char>::empty());
    }
    while i < n
        invariant
            n == s@.len(),
            text@ == s@,
            0 <= start <= i <= n,
            out@ + s@.subrange(start as int, i as int) == without_quotes(s@.subrange(0, i as int)),
        decreases n - i,
    {
        let c = text.get_char(i);
        let ghost before = out@;
        let ghost st = start;
        proof {
            assert(s@.subrange(0, i + 1).drop_last() =~= s@.subrange(0, i as int));
            assert(s@.subrange(0, i + 1).last() == c);
        }
        if c == '"' {
            out.append(text.substring_char(start, i));
            start = i + 1;
            proof {
                assert(out@ + s@.subrange(start as int, i + 1) =~= before + s@.subrange(st as int, i as int));
            }
        } else {
            proof {
                assert(before + s@.subrange(st as int, i + 1) =~= before + s@.subrange(st as int, i as int) + seq![c]);
            }
        }
        i += 1;
    }
    out.append(text.substring_char(start, n));
    proof {
        assert(s@.subrange(0, n as int) =~= s@);
    }
    out
}

/// Whether `c` is white space, as Unicode's White_Space property has it.
pub open spec fn is_space(c: char) -> bool {
    let v = c as u32;
    (0x9 <= v <= 0xd) || v == 0x20 || v == 0x85 || v == 0xa0 || v == 0x1680 || (0x2000 <= v <= 0x200a)
        || v == 0x2028 || v == 0x2029 || v == 0x202f || v == 0x205f || v == 0x3000
}

pub fn is_space_exec(c: char) -> (r: bool)
    ensures
        r == is_space(c),
{
    let v = c as u32;
    (0x9 <= v && v <= 0xd) || v == 0x20 || v == 0x85 || v == 0xa0 || v == 0x1680 || (0x2000 <= v && v <= 0x200a)
        || v == 0x2028 || v == 0x2029 || v == 0x202f || v == 0x205f || v == 0x3000
}

/// `s` without its leading white space.
pub open spec fn trim_start(s: Seq<char>) -> Seq<char>
    decreases s.len(),
{
    if s.len() > 0 && is_space(s[0]) { trim_start(s.drop_first()) } else { s }
}

/// `s` without its trailing white space.
pub open spec fn trim_end(s: Seq<char>) -> Seq<char>
    decreases s.len(),
{
    if s.len() > 0 && is_space(s.last()) { trim_end(s.drop_last()) } else { s }
}

/// `s` without white space at either end.
pub open spec fn trimmed(s: Seq<char>) -> Seq<char> {
    trim_end(trim_start(s))
}

/// Removes the white space at both ends of `s`.
pub fn trim(s: &String) -> (r: String)
    ensures
        r@ == trimmed(s@),
{
    let text = s.as_str();
    let n = text.unicode_len();
    let mut a: usize = 0;
    proof {
        assert(s@.subrange(0, n as int) =~= s@);
    }
    while a < n && is_space_exec(text.get_char(a))
        invariant
            n == s@.len(),
            text@ == s@,
            0 <= a <= n,
            trim_start(s@) == trim_start(s@.subrange(a as int, n as int)),
        decreases n - a,
    {
        proof {
            assert(s@.subrange(a as int, n as int).drop_first() =~= s@.subrange(a + 1, n as int));
        }
        a += 1;
    }
    let mut b: usize = n;
    while b > a && is_space_exec(text.get_char(b - 1))
        invariant
            n == s@.len(),
            text@ == s@,
            0 <= a <= b <= n,
            trimmed(s@) == trim_end(s@.subrange(a as int, b as int)),
        decreases b - a,
    {
        proof {
            assert(s@.subrange(a as int, b as int).drop_last() =~= s@.subrange(a as int, b - 1));
        }
        b -= 1;
    }
    let mut out = String::new();
    out.append(text.substring_char(a, b));
    proof {
        assert(Seq::<char>::empty() + s@.subrange(a as int, b as int) =~= s@.subrange(a as int, b as int));
    }
    out
}

} // verus!
