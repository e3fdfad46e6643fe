use vstd::prelude::*;

verus! {

// ---------------------------------------------------------------------------
// Byte classes
// ---------------------------------------------------------------------------

pub open spec fn is_dec_digit(b: u8) -> bool {
    48 <= b && b <= 57
}

pub open spec fn is_oct_digit(b: u8) -> bool {
    48 <= b && b <= 55
}

pub open spec fn is_hex_digit(b: u8) -> bool {
    is_dec_digit(b) || (97 <= b && b <= 102) || (65 <= b && b <= 70)
}

pub open spec fn is_alnum(b: u8) -> bool {
    is_dec_digit(b) || (97 <= b && b <= 122) || (65 <= b && b <= 90)
}

/// ASCII upper-case letters folded to lower case; all else unchanged.
pub open spec fn spec_lower(b: u8) -> u8 {
    if 65 <= b && b <= 90 {
        (b + 32) as u8
    } else {
        b
    }
}

/// Byte-sequence equality up to ASCII case.
pub open spec fn bytes_eq_ci(a: Seq<u8>, b: Seq<u8>) -> bool {
    a.len() == b.len() && (forall|i: int| 0 <= i < a.len() ==> spec_lower(a[i]) == spec_lower(b[i]))
}

pub fn eq_ignore_ascii_case(a: &Vec<u8>, b: &Vec<u8>) -> (r: bool)
    ensures
        r == bytes_eq_ci(a@, b@),
{
    if a.len() != b.len() {
        return false;
    }
    let n = a.len();
    let mut i: usize = 0;
    while i < n
        invariant
            i <= n,
            n == a.len() == b.len(),
            forall|j: int| 0 <= j < i ==> spec_lower(a@[j]) == spec_lower(b@[j]),
        decreases n - i,
    {
        let x = a[i];
        let y = b[i];
        let xl: u8 = if 65 <= x && x <= 90 {
            x + 32
        } else {
            x
        };
        let yl: u8 = if 65 <= y && y <= 90 {
            y + 32
        } else {
            y
        };
        if xl != yl {
            return false;
        }
        i += 1;
    }
    true
}

// ---------------------------------------------------------------------------
// Finding a byte
// ---------------------------------------------------------------------------

/// Index of the first occurrence of `c` in `s`, or -1 when absent.
pub open spec fn find_byte(s: Seq<u8>, c: u8) -> int
    decreases s.len(),
{
    if s.len() == 0 {
        -1
    } else if s[0] == c {
        0
    } else {
        let r = find_byte(s.drop_first(), c);
        if r < 0 {
            -1
        } else {
            r + 1
        }
    }
}

pub proof fn lemma_find_byte_props(s: Seq<u8>, c: u8)
    ensures
        find_byte(s, c) >= 0 ==> find_byte(s, c) < s.len() && s[find_byte(s, c)] == c && (forall|j: int|
            0 <= j < find_byte(s, c) ==> s[j] != c),
        find_byte(s, c) < 0 ==> find_byte(s, c) == -1 && (forall|j: int| 0 <= j < s.len() ==> s[j] != c),
    decreases s.len(),
{
    if s.len() == 0 {
    } else if s[0] == c {
    } else {
        lemma_find_byte_props(s.drop_first(), c);
        assert(forall|j: int| 1 <= j < s.len() ==> s[j] == s.drop_first()[j - 1]);
    }
}

/// The first occurrence characterises `find_byte` exactly.
pub proof fn lemma_find_byte_at(s: Seq<u8>, c: u8, k: int)
    requires
        0 <= k < s.len(),
        s[k] == c,
        forall|j: int| 0 <= j < k ==> s[j] != c,
    ensures
        find_byte(s, c) == k,
    decreases s.len(),
{
    if k == 0 {
    } else {
        assert(forall|j: int| 0 <= j < k - 1 ==> s.drop_first()[j] != c);
        lemma_find_byte_at(s.drop_first(), c, k - 1);
    }
}

pub proof fn lemma_find_byte_absent(s: Seq<u8>, c: u8)
    requires
        forall|j: int| 0 <= j < s.len() ==> s[j] != c,
    ensures
        find_byte(s, c) == -1,
    decreases s.len(),
{
    if s.len() > 0 {
        lemma_find_byte_absent(s.drop_first(), c);
    }
}

/// Searches the region `[from, to)` of `s` for the first `c`.
pub fn find_byte_in(s: &Vec<u8>, from: usize, to: usize, c: u8) -> (r: Option<usize>)
    requires
        from <= to <= s.len(),
    ensures
        match r {
            Some(k) => from <= k < to && find_byte(s@.subrange(from as int, to as int), c) == k - from,
            None => find_byte(s@.subrange(from as int, to as int), c) == -1,
        },
{
    let ghost region = s@.subrange(from as int, to as int);
    let mut i = from;
    while i < to
        invariant
            from <= i <= to <= s.len(),
            region == s@.subrange(from as int, to as int),
            forall|j: int| 0 <= j < i - from ==> region[j] != c,
        decreases to - i,
    {
        if s[i] == c {
            proof {
                lemma_find_byte_at(region, c, i - from);
            }
            return Some(i);
        }
        i += 1;
    }
    proof {
        lemma_find_byte_absent(region, c);
    }
    None
}

// ---------------------------------------------------------------------------
// Reading a decimal number
// ---------------------------------------------------------------------------

pub open spec fn all_dec(s: Seq<u8>) -> bool {
    forall|i: int| 0 <= i < s.len() ==> is_dec_digit(s[i])
}

/// Value of a string of decimal digits, most significant first.
pub open spec fn dec_val(s: Seq<u8>) -> nat
    recommends
        all_dec(s),
    decreases s.len(),
{
    if s.len() == 0 {
        0
    } else {
        (dec_val(s.drop_last()) * 10 + (s.last() - 48)) as nat
    }
}

/// A prefix of a digit string never exceeds the whole string's value.
pub proof fn lemma_dec_val_take_le(s: Seq<u8>, i: int)
    requires
        0 <= i <= s.len(),
        all_dec(s),
    ensures
        dec_val(s.take(i)) <= dec_val(s),
    decreases s.len() - i,
{
    if i == s.len() {
        assert(s.take(i) =~= s);
    } else {
        assert(s.take(i + 1).drop_last() =~= s.take(i));
        assert(s.take(i + 1).last() == s[i]);
        assert(dec_val(s.take(i + 1)) == dec_val(s.take(i)) * 10 + (s[i] - 48));
        assert(dec_val(s.take(i)) * 10 >= dec_val(s.take(i)));
        lemma_dec_val_take_le(s, i + 1);
    }
}

/// How the host's `Content-Length` values read as numbers: an optional
/// leading plus sign, then one or more decimal digits, the value fitting
/// an unsigned 64-bit integer; anything else does not parse.
pub open spec fn spec_parse_u64(s: Seq<u8>) -> Option<u64> {
    let digits = if s.len() >= 1 && s[0] == 43 {
        s.drop_first()
    } else {
        s
    };
    if digits.len() > 0 && all_dec(digits) && dec_val(digits) <= u64::MAX {
        Some(dec_val(digits) as u64)
    } else {
        None
    }
}

pub fn parse_u64(s: &Vec<u8>) -> (r: Option<u64>)
    ensures
        r == spec_parse_u64(s@),
{
    let ghost digits = if s@.len() >= 1 && s@[0] == 43 {
        s@.drop_first()
    } else {
        s@
    };
    let start: usize = if s.len() >= 1 && s[0] == 43 {
        1
    } else {
        0
    };
    proof {
        assert(digits =~= s@.subrange(start as int, s@.len() as int));
    }
    if start >= s.len() {
        return None;
    }
    let n = s.len();
    let mut acc: u64 = 0;
    let mut i = start;
    while i < n
        invariant
            start <= i <= n,
            n == s.len(),
            start == (if s@.len() >= 1 && s@[0] == 43 {
                1int
            } else {
                0int
            }),
            digits == (if s@.len() >= 1 && s@[0] == 43 {
                s@.drop_first()
            } else {
                s@
            }),
            digits =~= s@.subrange(start as int, n as int),
            forall|j: int| start <= j < i ==> is_dec_digit(s@[j]),
            acc == dec_val(s@.subrange(start as int, i as int)),
        decreases n - i,
    {
        let b = s[i];
        if b < 48 || b > 57 {
            proof {
                assert(digits == s@.subrange(start as int, n as int));
                assert(digits[i - start] == s@[i as int]);
                assert(!is_dec_digit(digits[i - start]));
                assert(!all_dec(digits));
                assert(spec_parse_u64(s@) is None);
            }
            return None;
        }
        let d: u64 = (b - 48) as u64;
        proof {
            assert(s@.subrange(start as int, i as int + 1).drop_last() =~= s@.subrange(
                start as int,
                i as int,
            ));
            assert(s@.subrange(start as int, i as int + 1).last() == s@[i as int]);
        }
        if acc > (u64::MAX - d) / 10 {
            proof {
                let prefix = s@.subrange(start as int, i as int + 1);
                assert(dec_val(prefix) == acc * 10 + d);
                assert(acc * 10 >= (u64::MAX - d) + 1) by (nonlinear_arith)
                    requires
                        acc > (u64::MAX - d) / 10,
                        0 <= d <= 9,
                ;
                assert(acc * 10 + d > u64::MAX);
                if all_dec(digits) {
                    assert(prefix =~= digits.take(i + 1 - start));
                    lemma_dec_val_take_le(digits, i + 1 - start);
                    assert(dec_val(digits) > u64::MAX);
                }
                assert(spec_parse_u64(s@) is None);
            }
            return None;
        }
        acc = acc * 10 + d;
        i += 1;
    }
    proof {
        assert(digits =~= s@.subrange(start as int, n as int));
    }
    Some(acc)
}

} // verus!
