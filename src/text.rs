use vstd::prelude::*;

use crate::error::TopoError;

verus! {

/// Whether two strings hold the same characters.
pub fn str_eq(a: &str, b: &str) -> (r: bool)
    ensures
        r == (a@ == b@),
{
    let n = a.unicode_len();
    if n != b.unicode_len() {
        return false;
    }
    let mut i: usize = 0;
    while i < n
        invariant
            n == a@.len(),
            n == b@.len(),
            i <= n,
            forall|j: int| 0 <= j < i ==> a@[j] == b@[j],
        decreases n - i,
    {
        if a.get_char(i) != b.get_char(i) {
            return false;
        }
        i = i + 1;
    }
    assert(a@ =~= b@);
    true
}

/// `m` ends with `t`: an error message that quotes the offending text.
pub open spec fn ends_with(m: Seq<char>, t: Seq<char>) -> bool {
    t.len() <= m.len() && m.subrange(m.len() - t.len(), m.len() as int) == t
}

/// An error message: `what` followed by the offending text.
pub fn malformed_text(what: &str, detail: &str) -> (r: String)
    ensures
        r@ == what@ + detail@,
        ends_with(r@, detail@),
{
    let mut m = String::from_str(what);
    m.append(detail);
    assert(m@.subrange(m@.len() - detail@.len(), m@.len() as int) =~= detail@);
    m
}

/// The strings of `xs` joined with `,` between neighbours.
pub open spec fn join_comma(xs: Seq<Seq<char>>) -> Seq<char>
    decreases xs.len(),
{
    if xs.len() == 0 {
        Seq::empty()
    } else if xs.len() == 1 {
        xs[0]
    } else {
        join_comma(xs.drop_last()) + seq![','] + xs.last()
    }
}

pub open spec fn is_hex_digit(c: char) -> bool {
    ('0' <= c <= '9') || ('a' <= c <= 'f') || ('A' <= c <= 'F')
}

pub open spec fn hex_digit_value(c: char) -> nat {
    if '0' <= c <= '9' {
        (c as u32 - '0' as u32) as nat
    } else if 'a' <= c <= 'f' {
        (c as u32 - 'a' as u32 + 10) as nat
    } else {
        (c as u32 - 'A' as u32 + 10) as nat
    }
}

/// The number that a string of hexadecimal digits denotes.
pub open spec fn hex_val(s: Seq<char>) -> nat
    decreases s.len(),
{
    if s.len() == 0 {
        0
    } else {
        hex_val(s.drop_last()) * 16 + hex_digit_value(s.last())
    }
}

pub open spec fn all_hex(s: Seq<char>) -> bool {
    forall|i: int| 0 <= i < s.len() ==> #[trigger] is_hex_digit(s[i])
}

/// The value of an instance field: a two-character radix marker, then
/// hexadecimal digits (at least one) whose value fits in 64 bits.
pub open spec fn instance_value(s: Seq<char>) -> Option<u64> {
    if s.len() < 2 {
        None
    } else {
        let d = s.subrange(2, s.len() as int);
        if d.len() > 0 && all_hex(d) && hex_val(d) <= u64::MAX {
            Some(hex_val(d) as u64)
        } else {
            None
        }
    }
}

/// Decodes an instance field: the first two characters (the radix marker) are
/// skipped and the rest is read as a hexadecimal number.
pub fn parse_instance(s: &str) -> (r: Result<u64, TopoError>)
    ensures
        match instance_value(s@) {
            Some(v) => r == Ok::<u64, TopoError>(v),
            None => r is Err && r->Err_0 is MalformedInput && ends_with(r->Err_0->MalformedInput_0@, s@),
        },
{
    let n = s.unicode_len();
    if n < 2 {
        return Err(TopoError::MalformedInput(malformed_text("instance field too short: ", s)));
    }
    let ghost d = s@.subrange(2, n as int);
    let start: usize = 2;
    if start >= n {
        return Err(TopoError::MalformedInput(malformed_text("instance field has no digits: ", s)));
    }
    let mut acc: u64 = 0;
    let mut overflow = false;
    let mut i: usize = start;
    while i < n
        invariant
            n == s@.len(),
            start == 2,
            start <= i <= n,
            d == s@.subrange(start as int, n as int),
            all_hex(s@.subrange(start as int, i as int)),
            !overflow ==> acc as nat == hex_val(s@.subrange(start as int, i as int)),
            overflow ==> hex_val(s@.subrange(start as int, i as int)) > u64::MAX,
        decreases n - i,
    {
        let c = s.get_char(i);
        let ghost pre = s@.subrange(start as int, i as int);
        let ghost pre1 = s@.subrange(start as int, i + 1);
        assert(pre1.drop_last() =~= pre);
        if !(('0' <= c && c <= '9') || ('a' <= c && c <= 'f') || ('A' <= c && c <= 'F')) {
            assert(d[i - start] == c);
            assert(!is_hex_digit(d[i - start]));
            assert(!all_hex(d));

            return Err(TopoError::MalformedInput(malformed_text("instance field is not hexadecimal: ", s)));
        }
        let dv: u64 = if '0' <= c && c <= '9' {
            (c as u32 - '0' as u32) as u64
        } else if 'a' <= c && c <= 'f' {
            (c as u32 - 'a' as u32 + 10) as u64
        } else {
            (c as u32 - 'A' as u32 + 10) as u64
        };
        assert(dv as nat == hex_digit_value(c));
        if overflow {
            assert(hex_val(pre1) >= hex_val(pre)) by (nonlinear_arith)
                requires
                    hex_val(pre1) == hex_val(pre) * 16 + hex_digit_value(c),
            ;
        } else if acc > (u64::MAX - dv) / 16 {
            overflow = true;
            assert(hex_val(pre1) > u64::MAX) by (nonlinear_arith)
                requires
                    hex_val(pre1) == acc * 16 + dv,
                    acc > (u64::MAX - dv) / 16,
                    dv < 16,
            ;
        } else {
            assert(acc * 16 + dv <= u64::MAX) by (nonlinear_arith)
                requires
                    acc <= (u64::MAX - dv) / 16,
                    dv < 16,
            ;
            acc = acc * 16 + dv;
        }
        assert(all_hex(pre1)) by {
            assert forall|j: int| 0 <= j < pre1.len() implies #[trigger] is_hex_digit(pre1[j]) by {
                if j < pre.len() {
                    assert(pre1[j] == pre[j]);
                }
            }
        }
        i = i + 1;
    }
    assert(s@.subrange(start as int, n as int) =~= d);
    if overflow {
        return Err(TopoError::MalformedInput(malformed_text("instance field out of range: ", s)));
    }
    Ok(acc)
}

} // verus!
