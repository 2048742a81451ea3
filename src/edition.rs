use vstd::prelude::*;

use crate::locked::ProjectMetadata;
use crate::text::{chars_eq, chars_of, strs};
use crate::SkepticError;

verus! {

pub open spec fn is_digit(c: char) -> bool {
    '0' <= c && c <= '9'
}

/// The value of a decimal digit; other characters count as zero.
pub open spec fn digit_value(c: char) -> nat {
    if is_digit(c) {
        (c as u32 - '0' as u32) as nat
    } else {
        0
    }
}

/// The value of a string of decimal digits.
pub open spec fn digits_value(s: Seq<char>) -> nat
    decreases s.len(),
{
    if s.len() == 0 {
        0
    } else {
        digits_value(s.drop_last()) * 10 + digit_value(s.last())
    }
}

/// The digits of an unsigned number's text, after an optional `+`.
pub open spec fn unsigned_digits(s: Seq<char>) -> Seq<char> {
    if s.len() > 0 && s[0] == '+' {
        s.skip(1)
    } else {
        s
    }
}

/// Whether `s` is the text of a `u64`: an optional `+`, then one or more
/// decimal digits whose value fits.
pub open spec fn is_u64_text(s: Seq<char>) -> bool {
    let d = unsigned_digits(s);
    &&& d.len() > 0
    &&& forall|i: int| 0 <= i < d.len() ==> is_digit(#[trigger] d[i])
    &&& digits_value(d) <= u64::MAX
}

/// The numeric value of an edition's text.
pub open spec fn edition_value(s: Seq<char>) -> nat {
    digits_value(unsigned_digits(s))
}

/// Index of the edition with the largest value; of equal ones, the last.
pub open spec fn latest(eds: Seq<Seq<char>>) -> int
    decreases eds.len(),
{
    if eds.len() <= 1 {
        0
    } else {
        let k = latest(eds.drop_last());
        if edition_value(eds.last()) >= edition_value(eds[k]) {
            eds.len() - 1
        } else {
            k
        }
    }
}

proof fn lemma_digits_value_grows(s: Seq<char>, k: int)
    requires
        0 <= k <= s.len(),
    ensures
        digits_value(s.take(k)) <= digits_value(s),
    decreases s.len(),
{
    if k < s.len() {
        assert(s.drop_last().take(k) =~= s.take(k));
        lemma_digits_value_grows(s.drop_last(), k);
        let a = digits_value(s.drop_last());
        assert(a <= a * 10 + digit_value(s.last())) by (nonlinear_arith);
    } else {
        assert(s.take(k) =~= s);
    }
}

/// The edition chosen is one of the declared ones, and none of them has a
/// larger value.
pub proof fn lemma_latest_is_largest(eds: Seq<Seq<char>>)
    requires
        eds.len() > 0,
    ensures
        0 <= latest(eds) < eds.len(),
        forall|j: int|
            0 <= j < eds.len() ==> edition_value(#[trigger] eds[j]) <= edition_value(eds[latest(eds)]),
    decreases eds.len(),
{
    if eds.len() > 1 {
        lemma_latest_is_largest(eds.drop_last());
        assert forall|j: int| 0 <= j < eds.len() implies edition_value(#[trigger] eds[j]) <= edition_value(
            eds[latest(eds)],
        ) by {
            if j < eds.len() - 1 {
                assert(eds[j] == eds.drop_last()[j]);
            }
        }
    }
}

/// Reads the text of a `u64`, as `u64::from_str` does.
pub fn parse_u64(s: &Vec<char>) -> (r: Option<u64>)
    ensures
        match r {
            Some(v) => is_u64_text(s@) && v as nat == edition_value(s@),
            None => !is_u64_text(s@),
        },
{
    let start: usize = if s.len() > 0 && s[0] == '+' {
        1
    } else {
        0
    };
    let ghost d = unsigned_digits(s@);
    assert(d =~= s@.skip(start as int));
    if start >= s.len() {
        return None;
    }
    let mut val: u64 = 0;
    let mut i: usize = start;
    assert(d.take(0) =~= Seq::<char>::empty());
    while i < s.len()
        invariant
            start <= i <= s.len(),
            d == s@.skip(start as int),
            d == unsigned_digits(s@),
            val as nat == digits_value(d.take(i - start)),
            forall|j: int| 0 <= j < i - start ==> is_digit(#[trigger] d[j]),
        decreases s.len() - i,
    {
        let c = s[i];
        assert(d[i - start] == c);
        if !('0' <= c && c <= '9') {
            assert(!is_digit(d[i - start]));
            return None;
        }
        let digit = (c as u32 - '0' as u32) as u64;
        assert(d.take(i - start + 1).drop_last() =~= d.take(i - start));
        if val > 1844674407370955161 || (val == 1844674407370955161 && digit > 5) {
            proof {
                lemma_digits_value_grows(d, i - start + 1);
                assert(digit_value(c) == digit as nat);
                assert(val as nat * 10 + digit as nat > u64::MAX as nat) by (nonlinear_arith)
                    requires
                        val > 1844674407370955161 || (val == 1844674407370955161 && digit > 5),
                ;
                assert(digits_value(d.take(i - start + 1)) == digits_value(d.take(i - start)) * 10
                    + digit_value(c));
            }
            return None;
        }
        val = val * 10 + digit;
        i = i + 1;
    }
    assert(d.take(i - start) =~= d);
    Some(val)
}

/// The edition of the project: of the declared editions of its packages,
/// the one with the largest value (the last of equal ones). Fails when
/// there is none, or one is not a number.
pub fn get_edition(meta: &ProjectMetadata) -> (r: Result<String, SkepticError>)
    ensures
        (strs(meta.editions@).len() > 0 && forall|i: int|
            0 <= i < meta.editions@.len() ==> is_u64_text(#[trigger] strs(meta.editions@)[i]))
            <==> r is Ok,
        r is Err ==> r == Err::<String, SkepticError>(SkepticError::Edition),
        r matches Ok(e) ==> e@ == strs(meta.editions@)[latest(strs(meta.editions@))],
{
    let eds = &meta.editions;
    let ghost v = strs(eds@);
    if eds.len() == 0 {
        return Err(SkepticError::Edition);
    }
    let mut best: usize = 0;
    let mut best_val: u64 = 0;
    let mut i: usize = 0;
    assert(v.take(1).drop_last() =~= v.take(0));
    while i < eds.len()
        invariant
            v == strs(eds@),
            v == strs(meta.editions@),
            0 < eds.len(),
            i <= eds.len(),
            forall|j: int| 0 <= j < i ==> is_u64_text(#[trigger] v[j]),
            i > 0 ==> best < i && best as int == latest(v.take(i as int)),
            i > 0 ==> best_val as nat == edition_value(v[best as int]),
        decreases eds.len() - i,
    {
        let val = match parse_u64(&chars_of(eds[i].as_str())) {
            Some(x) => x,
            None => {
                assert(!is_u64_text(v[i as int]));
                assert(!is_u64_text(strs(meta.editions@)[i as int]));
                return Err(SkepticError::Edition);
            },
        };
        assert(v.take(i + 1).drop_last() =~= v.take(i as int));
        assert(v.take(i + 1).last() == v[i as int]);
        if i > 0 {
            proof {
                lemma_latest_is_largest(v.take(i as int));
            }
            assert(v.take(i as int)[best as int] == v[best as int]);
        }
        if i == 0 || val >= best_val {
            best = i;
            best_val = val;
        }
        i = i + 1;
    }
    assert(v.take(i as int) =~= v);
    Ok(eds[best].clone())
}

/// The compiler flag that requests an edition; none for `2015`, the
/// default.
pub fn edition_flag(edition: &String) -> (r: Option<String>)
    ensures
        edition@ == "2015"@ ==> r is None,
        edition@ != "2015"@ ==> r is Some && r->Some_0@ == "--edition="@ + edition@,
{
    let oldest = chars_of("2015");
    if chars_eq(&chars_of(edition.as_str()), &oldest) {
        None
    } else {
        Some(String::from_str("--edition=").concat(edition.as_str()))
    }
}

} // verus!
