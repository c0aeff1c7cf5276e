//! Verified text utilities: ASCII case folding, substring containment, and
//! decimal parsing of unsigned 64-bit token amounts.
use vstd::prelude::*;

verus! {

/// ASCII lower-casing of a single byte: letters `A`..`Z` map to `a`..`z`,
/// every other byte is unchanged.
pub open spec fn lower_byte(b: u8) -> u8 {
    if 65 <= b && b <= 90 {
        (b + 32) as u8
    } else {
        b
    }
}

/// ASCII lower-casing of a byte string.
pub open spec fn lower_bytes(s: Seq<u8>) -> Seq<u8> {
    s.map_values(|b: u8| lower_byte(b))
}

/// `needle` occurs in `hay` starting at position `i`.
pub open spec fn matches_at(hay: Seq<u8>, needle: Seq<u8>, i: int) -> bool {
    &&& 0 <= i
    &&& i + needle.len() <= hay.len()
    &&& hay.subrange(i, i + needle.len()) == needle
}

/// `needle` occurs somewhere in `hay`.
pub open spec fn contains_bytes(hay: Seq<u8>, needle: Seq<u8>) -> bool {
    exists|i: int| matches_at(hay, needle, i)
}

/// Case-insensitive containment: the lower-cased needle occurs in the
/// lower-cased hay.
pub open spec fn contains_ci(hay: Seq<u8>, needle: Seq<u8>) -> bool {
    contains_bytes(lower_bytes(hay), lower_bytes(needle))
}

/// ASCII lower-casing of a byte vector.
pub fn lower_vec(s: &Vec<u8>) -> (r: Vec<u8>)
    ensures
        r@ == lower_bytes(s@),
{
    let mut r: Vec<u8> = Vec::new();
    let mut i: usize = 0;
    while i < s.len()
        invariant
            i <= s@.len(),
            r@ == lower_bytes(s@.subrange(0, i as int)),
        decreases s@.len() - i,
    {
        let b = s[i];
        let lb: u8 = if 65 <= b && b <= 90 {
            b + 32
        } else {
            b
        };
        r.push(lb);
        proof {
            assert(lower_bytes(s@.subrange(0, i + 1)) =~= lower_bytes(
                s@.subrange(0, i as int),
            ).push(lower_byte(s@[i as int])));
        }
        i += 1;
    }
    proof {
        assert(s@.subrange(0, s@.len() as int) =~= s@);
    }
    r
}

/// Whether `needle` occurs in `hay` at position `i`.
fn match_at(hay: &Vec<u8>, needle: &Vec<u8>, i: usize) -> (r: bool)
    requires
        i + needle@.len() <= hay@.len(),
    ensures
        r == matches_at(hay@, needle@, i as int),
{
    let hlen = hay.len();
    let mut j: usize = 0;
    while j < needle.len()
        invariant
            hlen == hay@.len(),
            i + needle@.len() <= hay@.len(),
            j <= needle@.len(),
            forall|k: int| 0 <= k < j ==> hay@[i + k] == needle@[k],
        decreases needle@.len() - j,
    {
        if hay[i + j] != needle[j] {
            proof {
                assert(!matches_at(hay@, needle@, i as int)) by {
                    if matches_at(hay@, needle@, i as int) {
                        assert(hay@.subrange(i as int, i + needle@.len())[j as int] == needle@[
                            j as int
                        ]);
                    }
                }
            }
            return false;
        }
        j += 1;
    }
    proof {
        assert(hay@.subrange(i as int, i + needle@.len()) =~= needle@);
    }
    true
}

/// Whether `needle` occurs anywhere in `hay`.
pub fn contains_bytes_exec(hay: &Vec<u8>, needle: &Vec<u8>) -> (r: bool)
    ensures
        r == contains_bytes(hay@, needle@),
{
    if needle.len() == 0 {
        proof {
            assert(hay@.subrange(0, 0) =~= needle@);
            assert(matches_at(hay@, needle@, 0));
        }
        return true;
    }
    if needle.len() > hay.len() {
        proof {
            assert(!contains_bytes(hay@, needle@)) by {
                if exists|t: int| matches_at(hay@, needle@, t) {
                    let t = choose|t: int| matches_at(hay@, needle@, t);
                    assert(t + needle@.len() <= hay@.len());
                }
            }
        }
        return false;
    }
    let bound = hay.len() - needle.len();
    let mut i: usize = 0;
    while i <= bound
        invariant
            needle@.len() >= 1,
            hay@.len() <= usize::MAX,
            bound == hay@.len() - needle@.len(),
            i <= bound + 1,
            forall|t: int| 0 <= t < i ==> !matches_at(hay@, needle@, t),
        decreases bound + 1 - i,
    {
        if match_at(hay, needle, i) {
            return true;
        }
        i += 1;
    }
    proof {
        assert(!contains_bytes(hay@, needle@)) by {
            if exists|t: int| matches_at(hay@, needle@, t) {
                let t = choose|t: int| matches_at(hay@, needle@, t);
                assert(t + needle@.len() <= hay@.len());
                assert(!matches_at(hay@, needle@, t));
            }
        }
    }
    false
}

/// Case-insensitive containment of `needle` in `hay`.
pub fn contains_ci_exec(hay: &Vec<u8>, needle: &Vec<u8>) -> (r: bool)
    ensures
        r == contains_ci(hay@, needle@),
{
    let lh = lower_vec(hay);
    let ln = lower_vec(needle);
    contains_bytes_exec(&lh, &ln)
}

/// Whether `b` is an ASCII decimal digit.
pub open spec fn is_digit(b: u8) -> bool {
    48 <= b && b <= 57
}

/// Numeric value of an ASCII digit.
pub open spec fn digit_val(b: u8) -> int {
    b as int - 48
}

/// Every byte of `s` is an ASCII decimal digit.
pub open spec fn all_digits(s: Seq<u8>) -> bool {
    forall|i: int| 0 <= i < s.len() ==> is_digit(#[trigger] s[i])
}

/// Value of a string of decimal digits, most significant first.
pub open spec fn dec_value(s: Seq<u8>) -> int
    decreases s.len(),
{
    if s.len() == 0 {
        0
    } else {
        dec_value(s.drop_last()) * 10 + digit_val(s.last())
    }
}

/// The digits of a numeric text: everything after an optional leading `+`.
pub open spec fn digits_part(s: Seq<u8>) -> Seq<u8> {
    if s.len() >= 1 && s[0] == 43 {
        s.subrange(1, s.len() as int)
    } else {
        s
    }
}

/// What parsing an unsigned 64-bit decimal text yields: the value of the
/// digits after an optional `+` sign, or nothing when the text is empty,
/// holds a non-digit, or exceeds `u64::MAX`.
pub open spec fn parse_u64_spec(s: Seq<u8>) -> Option<u64> {
    let d = digits_part(s);
    if d.len() == 0 || !all_digits(d) || dec_value(d) > u64::MAX {
        None
    } else {
        Some(dec_value(d) as u64)
    }
}

proof fn lemma_dec_value_nonneg(s: Seq<u8>)
    requires
        all_digits(s),
    ensures
        dec_value(s) >= 0,
    decreases s.len(),
{
    if s.len() > 0 {
        assert(all_digits(s.drop_last()));
        lemma_dec_value_nonneg(s.drop_last());
    }
}

proof fn lemma_dec_value_take_step(s: Seq<u8>, j: int)
    requires
        0 <= j < s.len(),
    ensures
        dec_value(s.take(j + 1)) == dec_value(s.take(j)) * 10 + digit_val(s[j]),
{
    assert(s.take(j + 1).drop_last() =~= s.take(j));
    assert(s.take(j + 1).last() == s[j]);
}

proof fn lemma_dec_value_take_monotone(s: Seq<u8>, j: int, k: int)
    requires
        all_digits(s),
        0 <= j <= k <= s.len(),
    ensures
        dec_value(s.take(j)) <= dec_value(s.take(k)),
    decreases k - j,
{
    if j < k {
        lemma_dec_value_take_monotone(s, j, k - 1);
        lemma_dec_value_take_step(s, k - 1);
        assert(all_digits(s.take(k - 1)));
        lemma_dec_value_nonneg(s.take(k - 1));
    }
}

/// Parses an unsigned 64-bit decimal amount, exactly as `parse_u64_spec`
/// describes.
pub fn parse_u64(s: &Vec<u8>) -> (r: Option<u64>)
    ensures
        r == parse_u64_spec(s@),
{
    let ghost d: Seq<u8> = digits_part(s@);
    let start: usize = if s.len() >= 1 && s[0] == 43 {
        1
    } else {
        0
    };
    proof {
        assert(d =~= s@.subrange(start as int, s@.len() as int));
    }
    if s.len() == start {
        proof {
            assert(d.len() == 0);
        }
        return None;
    }
    let mut acc: u64 = 0;
    let mut j: usize = start;
    while j < s.len()
        invariant
            start <= j <= s@.len(),
            d == digits_part(s@),
            d == s@.subrange(start as int, s@.len() as int),
            all_digits(d.take(j - start)),
            acc == dec_value(d.take(j - start)),
        decreases s@.len() - j,
    {
        let b = s[j];
        proof {
            assert(d[j - start] == s@[j as int]);
        }
        if b < 48 || b > 57 {
            proof {
                assert(!is_digit(d[j - start]));
                assert(!all_digits(d));
            }
            return None;
        }
        let dv: u64 = (b - 48) as u64;
        proof {
            lemma_dec_value_take_step(d, j - start);
            assert(all_digits(d.take(j + 1 - start))) by {
                assert(forall|i: int|
                    0 <= i < j + 1 - start ==> d.take(j + 1 - start)[i] == #[trigger] d[i]);
            }
        }
        let shifted = match acc.checked_mul(10) {
            Some(v) => v,
            None => {
                proof {
                    assert(dec_value(d.take(j + 1 - start)) > u64::MAX);
                    overflow_means_none(d, j + 1 - start);
                }
                return None;
            },
        };
        let next = match shifted.checked_add(dv) {
            Some(v) => v,
            None => {
                proof {
                    assert(dec_value(d.take(j + 1 - start)) > u64::MAX);
                    overflow_means_none(d, j + 1 - start);
                }
                return None;
            },
        };
        acc = next;
        j += 1;
    }
    proof {
        assert(d.take(s@.len() - start) =~= d);
        assert(dec_value(d) <= u64::MAX);
    }
    Some(acc)
}

proof fn overflow_means_none(d: Seq<u8>, k: int)
    requires
        0 <= k <= d.len(),
        all_digits(d.take(k)),
        dec_value(d.take(k)) > u64::MAX,
    ensures
        !(all_digits(d) && dec_value(d) <= u64::MAX),
{
    if all_digits(d) {
        lemma_dec_value_take_monotone(d, k, d.len() as int);
        assert(d.take(d.len() as int) =~= d);
    }
}

} // verus!
