use vstd::prelude::*;
use crate::scan::is_dec_digit;
use crate::scan::is_hex_digit;
use crate::scan::is_oct_digit;
use crate::scan::is_alnum;
use crate::scan::all_dec;
use crate::scan::find_byte;
use crate::scan::find_byte_in;
use crate::scan::lemma_find_byte_at;
use crate::scan::lemma_find_byte_absent;

verus! {

// A Host header value counts as numeric when it is a literal network address
// rather than a symbolic name: a dotted form of up to four numerals (decimal,
// 0x/0X hexadecimal, or 0b/0B with digits 0-7, as the historic pattern has
// it), or a bracketed colon-and-hex form with an optional %zone suffix, each
// optionally followed by a port of one to five digits.

pub open spec fn all_oct_from(s: Seq<u8>, from: int) -> bool {
    forall|i: int| from <= i < s.len() ==> is_oct_digit(s[i])
}

pub open spec fn all_hex_from(s: Seq<u8>, from: int) -> bool {
    forall|i: int| from <= i < s.len() ==> is_hex_digit(s[i])
}

pub open spec fn all_hexcolon(s: Seq<u8>) -> bool {
    forall|i: int| 0 <= i < s.len() ==> is_hex_digit(s[i]) || s[i] == 58
}

pub open spec fn all_alnum(s: Seq<u8>) -> bool {
    forall|i: int| 0 <= i < s.len() ==> is_alnum(s[i])
}

/// One or more decimal digits.
pub open spec fn is_dec_numeral(s: Seq<u8>) -> bool {
    s.len() > 0 && all_dec(s)
}

/// `0x` or `0X` followed by one or more hexadecimal digits.
pub open spec fn is_hex_numeral(s: Seq<u8>) -> bool {
    s.len() >= 3 && s[0] == 48 && (s[1] == 120 || s[1] == 88) && all_hex_from(s, 2)
}

/// `0b` or `0B` followed by one or more digits 0-7.
pub open spec fn is_bin_numeral(s: Seq<u8>) -> bool {
    s.len() >= 3 && s[0] == 48 && (s[1] == 98 || s[1] == 66) && all_oct_from(s, 2)
}

/// One dot-separated group of a dotted numeric host.
pub open spec fn is_octet(s: Seq<u8>) -> bool {
    is_dec_numeral(s) || is_hex_numeral(s) || is_bin_numeral(s)
}

/// The groups of `s` between dots, dots excluded; empty groups are kept, so
/// adjacent dots yield an empty group that no octet check accepts.
pub open spec fn split_dots(s: Seq<u8>) -> Seq<Seq<u8>>
    decreases s.len(),
{
    if s.len() == 0 {
        seq![Seq::<u8>::empty()]
    } else if s[0] == 46 {
        seq![Seq::<u8>::empty()] + split_dots(s.drop_first())
    } else {
        let r = split_dots(s.drop_first());
        seq![seq![s[0]] + r[0]] + r.drop_first()
    }
}

pub proof fn lemma_split_dots_len(s: Seq<u8>)
    ensures
        split_dots(s).len() >= 1,
    decreases s.len(),
{
    if s.len() == 0 {
    } else {
        lemma_split_dots_len(s.drop_first());
    }
}

/// A dot-free string is one single group.
pub proof fn lemma_split_dots_nodot(s: Seq<u8>)
    requires
        forall|i: int| 0 <= i < s.len() ==> s[i] != 46,
    ensures
        split_dots(s) == seq![s],
    decreases s.len(),
{
    if s.len() == 0 {
        assert(split_dots(s) =~~= seq![s]);
    } else {
        lemma_split_dots_nodot(s.drop_first());
        lemma_split_dots_len(s.drop_first());
        assert(seq![s[0]] + split_dots(s.drop_first())[0] =~= s);
        assert(split_dots(s) =~~= seq![s]);
    }
}

/// Splitting at the first dot: a dot-free prefix becomes the first group.
pub proof fn lemma_split_dots_concat(x: Seq<u8>, y: Seq<u8>)
    requires
        forall|i: int| 0 <= i < x.len() ==> x[i] != 46,
    ensures
        split_dots(x + seq![46u8] + y) == seq![x] + split_dots(y),
    decreases x.len(),
{
    let s = x + seq![46u8] + y;
    if x.len() == 0 {
        assert(s =~= seq![46u8] + y);
        assert(s[0] == 46);
        assert(s.drop_first() =~= y);
        assert(split_dots(s) =~~= seq![x] + split_dots(y));
    } else {
        assert(s[0] == x[0]);
        assert(s.len() > 0 && s[0] != 46);
        assert(s.drop_first() =~= x.drop_first() + seq![46u8] + y);
        lemma_split_dots_concat(x.drop_first(), y);
        let r = split_dots(s.drop_first());
        assert(r == seq![x.drop_first()] + split_dots(y));
        assert(r[0] == x.drop_first());
        assert(seq![s[0]] + r[0] =~= x);
        assert(r.drop_first() =~~= split_dots(y));
        assert(split_dots(s) =~~= seq![x] + split_dots(y));
    }
}

/// A dotted host body of at most `budget` groups, every group an octet.
pub open spec fn dotted_ok(s: Seq<u8>, budget: int) -> bool {
    let gs = split_dots(s);
    gs.len() <= budget && (forall|i: int| 0 <= i < gs.len() ==> is_octet(gs[i]))
}

pub open spec fn is_dotted(s: Seq<u8>) -> bool {
    dotted_ok(s, 4)
}

/// A port suffix after the colon: one to five decimal digits.
pub open spec fn is_port(p: Seq<u8>) -> bool {
    1 <= p.len() <= 5 && all_dec(p)
}

/// Between brackets: non-empty hex-and-colon text, optionally followed by a
/// `%` and a non-empty alphanumeric zone identifier.
pub open spec fn is_bracket_inner(s: Seq<u8>) -> bool {
    let pc = find_byte(s, 37);
    if pc < 0 {
        s.len() > 0 && all_hexcolon(s)
    } else {
        pc > 0 && all_hexcolon(s.take(pc)) && pc + 1 < s.len() && all_alnum(s.skip(pc + 1))
    }
}

/// The whole classification of a Host header value.
pub open spec fn spec_host_is_numeric(s: Seq<u8>) -> bool {
    if s.len() == 0 {
        false
    } else if s[0] == 91 {
        let j = find_byte(s, 93);
        j >= 2 && is_bracket_inner(s.subrange(1, j)) && (j == s.len() - 1 || (j + 1 < s.len() && s[j
            + 1] == 58 && is_port(s.skip(j + 2))))
    } else {
        let i = find_byte(s, 58);
        if i < 0 {
            is_dotted(s)
        } else {
            is_dotted(s.take(i)) && is_port(s.skip(i + 1))
        }
    }
}

// ---------------------------------------------------------------------------
// What the grammar owes: the required positive and negative families
// ---------------------------------------------------------------------------

/// A dotted or bare host body with no colon, bracket or dot outside its
/// groups classifies as numeric, with or without a port suffix.
pub proof fn lemma_dotted_host_numeric(h: Seq<u8>, port: Option<Seq<u8>>)
    requires
        is_dotted(h),
        h.len() > 0,
        h[0] != 91,
        forall|i: int| 0 <= i < h.len() ==> h[i] != 58,
        match port {
            Some(p) => is_port(p),
            None => true,
        },
    ensures
        spec_host_is_numeric(
            match port {
                Some(p) => h + seq![58u8] + p,
                None => h,
            },
        ),
{
    match port {
        None => {
            lemma_find_byte_absent(h, 58);
        },
        Some(p) => {
            let s = h + seq![58u8] + p;
            assert(s[0] == h[0]);
            assert(s[h.len() as int] == 58);
            assert(forall|j: int| 0 <= j < h.len() ==> s[j] == h[j]);
            lemma_find_byte_at(s, 58, h.len() as int);
            assert(s.take(h.len() as int) =~= h);
            assert(s.skip(h.len() as int + 1) =~= p);
        },
    }
}

/// Every octet's bytes are alphanumeric, hence none of dot, colon, brackets.
proof fn lemma_octet_bytes(s: Seq<u8>)
    requires
        is_octet(s),
    ensures
        forall|i: int| 0 <= i < s.len() ==> is_alnum(s[i]),
{
    if is_dec_numeral(s) {
    } else if is_hex_numeral(s) {
        assert(forall|i: int| 2 <= i < s.len() ==> is_alnum(s[i]));
    } else {
        assert(forall|i: int| 2 <= i < s.len() ==> is_alnum(s[i]));
    }
}

/// A bare numeral — decimal, 0x hexadecimal, 0b, or leading-zero octal, all
/// of which are octets — classifies as numeric, with or without a port.
pub proof fn lemma_bare_numeral_numeric(s: Seq<u8>, port: Option<Seq<u8>>)
    requires
        is_octet(s),
        match port {
            Some(p) => is_port(p),
            None => true,
        },
    ensures
        spec_host_is_numeric(
            match port {
                Some(p) => s + seq![58u8] + p,
                None => s,
            },
        ),
{
    lemma_octet_bytes(s);
    lemma_split_dots_nodot(s);
    assert(split_dots(s)[0] == s);
    assert(is_dotted(s));
    lemma_dotted_host_numeric(s, port);
}

/// Every dotted-decimal IPv4 — four non-empty digit groups, overflowing
/// octets included — classifies as numeric, with or without a port.
pub proof fn lemma_ipv4_numeric(a: Seq<u8>, b: Seq<u8>, c: Seq<u8>, d: Seq<u8>, port: Option<Seq<u8>>)
    requires
        is_dec_numeral(a),
        is_dec_numeral(b),
        is_dec_numeral(c),
        is_dec_numeral(d),
        match port {
            Some(p) => is_port(p),
            None => true,
        },
    ensures
        spec_host_is_numeric(
            match port {
                Some(p) => (a + seq![46u8] + b + seq![46u8] + c + seq![46u8] + d) + seq![58u8] + p,
                None => a + seq![46u8] + b + seq![46u8] + c + seq![46u8] + d,
            },
        ),
{
    let h = a + seq![46u8] + b + seq![46u8] + c + seq![46u8] + d;
    let t2 = c + seq![46u8] + d;
    let t1 = b + seq![46u8] + t2;
    assert(h =~= a + seq![46u8] + t1);
    lemma_split_dots_nodot(d);
    lemma_split_dots_concat(c, d);
    assert(split_dots(t2) =~~= seq![c, d]);
    lemma_split_dots_concat(b, t2);
    assert(split_dots(t1) =~~= seq![b, c, d]);
    lemma_split_dots_concat(a, t1);
    assert(split_dots(h) =~~= seq![a, b, c, d]);
    assert(is_dotted(h));
    assert(h[0] == a[0]);
    assert(forall|i: int| 0 <= i < h.len() ==> (is_dec_digit(h[i]) || h[i] == 46));
    lemma_dotted_host_numeric(h, port);
}

/// The byte sequence of a bracketed host: the inner address, an optional
/// `%zone`, and an optional `:port` after the closing bracket.
pub open spec fn bracket_host(inner: Seq<u8>, zone: Option<Seq<u8>>, port: Option<Seq<u8>>) -> Seq<u8> {
    seq![91u8] + inner + (match zone {
        Some(z) => seq![37u8] + z,
        None => Seq::<u8>::empty(),
    }) + seq![93u8] + (match port {
        Some(p) => seq![58u8] + p,
        None => Seq::<u8>::empty(),
    })
}

/// Every bracketed colon-and-hex form — so every standard IPv6 abbreviation
/// — classifies as numeric, with or without a zone identifier and a port.
pub proof fn lemma_ipv6_numeric(inner: Seq<u8>, zone: Option<Seq<u8>>, port: Option<Seq<u8>>)
    requires
        inner.len() > 0,
        all_hexcolon(inner),
        match zone {
            Some(z) => z.len() > 0 && all_alnum(z),
            None => true,
        },
        match port {
            Some(p) => is_port(p),
            None => true,
        },
    ensures
        spec_host_is_numeric(bracket_host(inner, zone, port)),
{
    let zpart = match zone {
        Some(z) => seq![37u8] + z,
        None => Seq::<u8>::empty(),
    };
    let ppart = match port {
        Some(p) => seq![58u8] + p,
        None => Seq::<u8>::empty(),
    };
    let s = bracket_host(inner, zone, port);
    let j = 1 + inner.len() + zpart.len();
    assert(s =~= seq![91u8] + inner + zpart + seq![93u8] + ppart);
    assert(s[0] == 91);
    assert(s[j as int] == 93);
    assert(forall|i: int| 0 <= i < inner.len() ==> s[1 + i] == inner[i]);
    assert(forall|i: int| 0 <= i < zpart.len() ==> s[1 + inner.len() + i] == zpart[i]);
    assert(forall|i: int| 0 <= i < j ==> s[i] != 93);
    lemma_find_byte_at(s, 93, j as int);
    let sub = s.subrange(1, j as int);
    assert(sub =~= inner + zpart);
    match zone {
        None => {
            assert(sub =~= inner);
            lemma_find_byte_absent(sub, 37);
        },
        Some(z) => {
            assert(sub[inner.len() as int] == 37);
            assert(forall|i: int| 0 <= i < inner.len() ==> sub[i] == inner[i] && sub[i] != 37);
            lemma_find_byte_at(sub, 37, inner.len() as int);
            assert(sub.take(inner.len() as int) =~= inner);
            assert(sub.skip(inner.len() as int + 1) =~= z);
        },
    }
    assert(is_bracket_inner(sub));
    match port {
        None => {
            assert(j == s.len() - 1);
        },
        Some(p) => {
            assert(s[j as int + 1] == 58);
            assert(s.skip(j as int + 2) =~= p);
        },
    }
}

/// A label that begins with an ordinary letter — one with no place in any
/// numeral, like the `w` of `www.example.com` — never classifies as numeric.
pub proof fn lemma_alpha_label_not_numeric(s: Seq<u8>)
    requires
        s.len() > 0,
        103 <= s[0] <= 122,
    ensures
        !spec_host_is_numeric(s),
{
    assert(s[0] != 91);
    let i = find_byte(s, 58);
    crate::scan::lemma_find_byte_props(s, 58);
    if i < 0 {
        lemma_not_dotted_alpha(s);
    } else {
        if i == 0 {
            assert(s[0] == 58);
        } else {
            let h = s.take(i);
            assert(h[0] == s[0]);
            lemma_not_dotted_alpha(h);
        }
    }
}

/// A body whose first byte is a letter beyond the hexadecimal range has a
/// first group that is no octet.
proof fn lemma_not_dotted_alpha(h: Seq<u8>)
    requires
        h.len() > 0,
        103 <= h[0] <= 122,
    ensures
        !is_dotted(h),
{
    assert(h[0] != 46);
    lemma_split_dots_len(h.drop_first());
    let g0 = split_dots(h)[0];
    assert(g0 == seq![h[0]] + split_dots(h.drop_first())[0]);
    assert(g0.len() > 0 && g0[0] == h[0]);
    assert(!is_dec_digit(g0[0]));
    assert(!is_dec_numeral(g0));
    assert(!is_hex_numeral(g0));
    assert(!is_bin_numeral(g0));
    assert(!is_octet(split_dots(h)[0]));
}

// ---------------------------------------------------------------------------
// Executable classification
// ---------------------------------------------------------------------------

fn all_dec_in(s: &Vec<u8>, from: usize, to: usize) -> (r: bool)
    requires
        from <= to <= s.len(),
    ensures
        r == all_dec(s@.subrange(from as int, to as int)),
{
    let mut i = from;
    while i < to
        invariant
            from <= i <= to <= s.len(),
            forall|j: int| from <= j < i ==> is_dec_digit(s@[j]),
        decreases to - i,
    {
        let b = s[i];
        if b < 48 || b > 57 {
            proof {
                assert(s@.subrange(from as int, to as int)[i - from] == s@[i as int]);
            }
            return false;
        }
        i += 1;
    }
    proof {
        assert forall|k: int| 0 <= k < to - from implies is_dec_digit(
            s@.subrange(from as int, to as int)[k],
        ) by {
            assert(s@.subrange(from as int, to as int)[k] == s@[from + k]);
        }
    }
    true
}

fn all_hex_in(s: &Vec<u8>, from: usize, to: usize) -> (r: bool)
    requires
        from <= to <= s.len(),
    ensures
        r == (forall|j: int| from <= j < to ==> is_hex_digit(s@[j])),
{
    let mut i = from;
    while i < to
        invariant
            from <= i <= to <= s.len(),
            forall|j: int| from <= j < i ==> is_hex_digit(s@[j]),
        decreases to - i,
    {
        let b = s[i];
        if !((48 <= b && b <= 57) || (97 <= b && b <= 102) || (65 <= b && b <= 70)) {
            return false;
        }
        i += 1;
    }
    true
}

fn all_oct_in(s: &Vec<u8>, from: usize, to: usize) -> (r: bool)
    requires
        from <= to <= s.len(),
    ensures
        r == (forall|j: int| from <= j < to ==> is_oct_digit(s@[j])),
{
    let mut i = from;
    while i < to
        invariant
            from <= i <= to <= s.len(),
            forall|j: int| from <= j < i ==> is_oct_digit(s@[j]),
        decreases to - i,
    {
        let b = s[i];
        if b < 48 || b > 55 {
            return false;
        }
        i += 1;
    }
    true
}

fn all_hexcolon_in(s: &Vec<u8>, from: usize, to: usize) -> (r: bool)
    requires
        from <= to <= s.len(),
    ensures
        r == all_hexcolon(s@.subrange(from as int, to as int)),
{
    let mut i = from;
    while i < to
        invariant
            from <= i <= to <= s.len(),
            forall|j: int| from <= j < i ==> is_hex_digit(s@[j]) || s@[j] == 58,
        decreases to - i,
    {
        let b = s[i];
        if !((48 <= b && b <= 57) || (97 <= b && b <= 102) || (65 <= b && b <= 70) || b == 58) {
            proof {
                assert(s@.subrange(from as int, to as int)[i - from] == s@[i as int]);
            }
            return false;
        }
        i += 1;
    }
    proof {
        assert forall|k: int| 0 <= k < to - from implies is_hex_digit(
            s@.subrange(from as int, to as int)[k],
        ) || s@.subrange(from as int, to as int)[k] == 58 by {
            assert(s@.subrange(from as int, to as int)[k] == s@[from + k]);
        }
    }
    true
}

fn all_alnum_in(s: &Vec<u8>, from: usize, to: usize) -> (r: bool)
    requires
        from <= to <= s.len(),
    ensures
        r == all_alnum(s@.subrange(from as int, to as int)),
{
    let mut i = from;
    while i < to
        invariant
            from <= i <= to <= s.len(),
            forall|j: int| from <= j < i ==> is_alnum(s@[j]),
        decreases to - i,
    {
        let b = s[i];
        if !((48 <= b && b <= 57) || (97 <= b && b <= 122) || (65 <= b && b <= 90)) {
            proof {
                assert(s@.subrange(from as int, to as int)[i - from] == s@[i as int]);
            }
            return false;
        }
        i += 1;
    }
    proof {
        assert forall|k: int| 0 <= k < to - from implies is_alnum(
            s@.subrange(from as int, to as int)[k],
        ) by {
            assert(s@.subrange(from as int, to as int)[k] == s@[from + k]);
        }
    }
    true
}

fn is_octet_in(s: &Vec<u8>, from: usize, to: usize) -> (r: bool)
    requires
        from <= to <= s.len(),
    ensures
        r == is_octet(s@.subrange(from as int, to as int)),
{
    let ghost sub = s@.subrange(from as int, to as int);
    proof {
        assert(forall|k: int| 0 <= k < to - from ==> sub[k] == s@[from + k]);
    }
    if to - from >= 3 && s[from] == 48 && (s[from + 1] == 120 || s[from + 1] == 88) {
        let r = all_hex_in(s, from + 2, to);
        proof {
            assert(sub[0] == s@[from as int] && sub[1] == s@[from as int + 1]);
            assert(!is_dec_digit(sub[1]));
            assert(!is_dec_numeral(sub));
            assert(!is_bin_numeral(sub));
            if r {
                assert forall|i: int| 2 <= i < sub.len() implies is_hex_digit(sub[i]) by {
                    assert(sub[i] == s@[from + i]);
                }
                assert(is_hex_numeral(sub));
            } else {
                if all_hex_from(sub, 2) {
                    assert forall|j: int| from + 2 <= j < to implies is_hex_digit(s@[j]) by {
                        assert(s@[j] == sub[j - from]);
                    }
                    assert(false);
                }
                assert(!is_hex_numeral(sub));
            }
        }
        r
    } else if to - from >= 3 && s[from] == 48 && (s[from + 1] == 98 || s[from + 1] == 66) {
        let r = all_oct_in(s, from + 2, to);
        proof {
            assert(sub[0] == s@[from as int] && sub[1] == s@[from as int + 1]);
            assert(!is_dec_digit(sub[1]));
            assert(!is_dec_numeral(sub));
            assert(!is_hex_numeral(sub));
            if r {
                assert forall|i: int| 2 <= i < sub.len() implies is_oct_digit(sub[i]) by {
                    assert(sub[i] == s@[from + i]);
                }
                assert(is_bin_numeral(sub));
            } else {
                if all_oct_from(sub, 2) {
                    assert forall|j: int| from + 2 <= j < to implies is_oct_digit(s@[j]) by {
                        assert(s@[j] == sub[j - from]);
                    }
                    assert(false);
                }
                assert(!is_bin_numeral(sub));
            }
        }
        r
    } else {
        if from == to {
            return false;
        }
        let r = all_dec_in(s, from, to);
        proof {
            assert(sub.len() >= 1 && sub[0] == s@[from as int]);
            if sub.len() >= 3 {
                assert(sub[1] == s@[from as int + 1]);
            }
            assert(!is_hex_numeral(sub));
            assert(!is_bin_numeral(sub));
        }
        r
    }
}

fn is_port_in(s: &Vec<u8>, from: usize, to: usize) -> (r: bool)
    requires
        from <= to <= s.len(),
    ensures
        r == is_port(s@.subrange(from as int, to as int)),
{
    if to - from < 1 || to - from > 5 {
        return false;
    }
    all_dec_in(s, from, to)
}

fn dotted_in(s: &Vec<u8>, from: usize, to: usize, budget: usize) -> (r: bool)
    requires
        from <= to <= s.len(),
    ensures
        r == dotted_ok(s@.subrange(from as int, to as int), budget as int),
    decreases to - from,
{
    let ghost sub = s@.subrange(from as int, to as int);
    match find_byte_in(s, from, to, 46) {
        None => {
            proof {
                crate::scan::lemma_find_byte_props(sub, 46);
                lemma_split_dots_nodot(sub);
                assert(split_dots(sub) == seq![sub]);
                assert(split_dots(sub)[0] == sub);
            }
            if budget < 1 {
                return false;
            }
            is_octet_in(s, from, to)
        },
        Some(d) => {
            proof {
                crate::scan::lemma_find_byte_props(sub, 46);
                assert(sub[d - from] == 46);
                assert(sub.take(d - from) =~= s@.subrange(from as int, d as int));
                assert(sub.skip(d - from + 1) =~= s@.subrange(d as int + 1, to as int));
                assert(sub =~= s@.subrange(from as int, d as int) + seq![46u8] + s@.subrange(
                    d as int + 1,
                    to as int,
                ));
                assert(forall|i: int| 0 <= i < d - from ==> s@.subrange(
                    from as int,
                    d as int,
                )[i] != 46);
                lemma_split_dots_concat(
                    s@.subrange(from as int, d as int),
                    s@.subrange(d as int + 1, to as int),
                );
                lemma_split_dots_len(s@.subrange(d as int + 1, to as int));
            }
            if budget <= 1 {
                return false;
            }
            let first_ok = is_octet_in(s, from, d);
            if !first_ok {
                proof {
                    assert(split_dots(sub)[0] == s@.subrange(from as int, d as int));
                }
                return false;
            }
            let rest_ok = dotted_in(s, d + 1, to, budget - 1);
            proof {
                let gs = split_dots(sub);
                let rest_gs = split_dots(s@.subrange(d as int + 1, to as int));
                assert(gs == seq![s@.subrange(from as int, d as int)] + rest_gs);
                assert(forall|i: int| 0 <= i < rest_gs.len() ==> gs[i + 1] == rest_gs[i]);
                if rest_ok {
                    assert(forall|i: int| 0 <= i < gs.len() ==> is_octet(gs[i])) by {
                        assert(forall|i: int| 1 <= i < gs.len() ==> gs[i] == rest_gs[i - 1]);
                    }
                }
            }
            rest_ok
        },
    }
}

/// Classifies a Host header value as a literal network address.
pub fn host_matches_numeric(s: &Vec<u8>) -> (r: bool)
    ensures
        r == spec_host_is_numeric(s@),
{
    let n = s.len();
    if n == 0 {
        return false;
    }
    proof {
        assert(s@.subrange(0, n as int) =~= s@);
    }
    if s[0] == 91 {
        match find_byte_in(s, 0, n, 93) {
            None => false,
            Some(j) => {
                if j < 2 {
                    return false;
                }
                let inner_ok = bracket_inner_in(s, 1, j);
                if !inner_ok {
                    return false;
                }
                if j == n - 1 {
                    return true;
                }
                proof {
                    assert(s@.skip(j as int + 2) =~= s@.subrange(j as int + 2, n as int));
                }
                if s[j + 1] == 58 {
                    is_port_in(s, j + 2, n)
                } else {
                    false
                }
            },
        }
    } else {
        match find_byte_in(s, 0, n, 58) {
            None => dotted_in(s, 0, n, 4),
            Some(i) => {
                proof {
                    assert(s@.take(i as int) =~= s@.subrange(0, i as int));
                    assert(s@.skip(i as int + 1) =~= s@.subrange(i as int + 1, n as int));
                }
                if !dotted_in(s, 0, i, 4) {
                    false
                } else {
                    is_port_in(s, i + 1, n)
                }
            },
        }
    }
}

fn bracket_inner_in(s: &Vec<u8>, from: usize, to: usize) -> (r: bool)
    requires
        from <= to <= s.len(),
    ensures
        r == is_bracket_inner(s@.subrange(from as int, to as int)),
{
    let ghost sub = s@.subrange(from as int, to as int);
    match find_byte_in(s, from, to, 37) {
        None => {
            if to <= from {
                return false;
            }
            all_hexcolon_in(s, from, to)
        },
        Some(pc) => {
            proof {
                assert(sub.take(pc - from) =~= s@.subrange(from as int, pc as int));
                assert(sub.skip(pc - from + 1) =~= s@.subrange(pc as int + 1, to as int));
            }
            if pc <= from {
                return false;
            }
            if !all_hexcolon_in(s, from, pc) {
                return false;
            }
            if pc + 1 >= to {
                return false;
            }
            all_alnum_in(s, pc + 1, to)
        },
    }
}

} // verus!
