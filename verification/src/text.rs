//! Byte-level building blocks of the tile protocol: decimal numbers,
//! floating-point literals and separators.

use vstd::prelude::*;

verus! {

/// The bytes of an ASCII word, written as characters for readability.
pub open spec fn ascii(s: Seq<char>) -> Seq<u8> {
    s.map_values(|c: char| c as u8)
}

/// An ASCII decimal digit.
pub open spec fn is_digit(b: u8) -> bool {
    48 <= b <= 57
}

/// Every byte of `s` is an ASCII decimal digit.
pub open spec fn all_digits(s: Seq<u8>) -> bool {
    forall|i: int| 0 <= i < s.len() ==> is_digit(#[trigger] s[i])
}

/// The value of a single decimal digit.
pub open spec fn digit_value(b: u8) -> nat {
    (b - 48) as nat
}

/// The value of a string of decimal digits, most significant first.
pub open spec fn decimal_value(s: Seq<u8>) -> nat
    decreases s.len(),
{
    if s.len() == 0 {
        0
    } else {
        decimal_value(s.drop_last()) * 10 + digit_value(s.last())
    }
}

/// The digits of an unsigned decimal number: an optional leading `+` is dropped.
pub open spec fn unsigned_digits(s: Seq<u8>) -> Seq<u8> {
    if s.len() > 0 && s[0] == 43u8 {
        s.drop_first()
    } else {
        s
    }
}

/// What `str::parse` gives for an unsigned integer type whose largest value is `max`:
/// an optional `+` followed by at least one digit, and a value that fits.
pub open spec fn spec_parse_unsigned(s: Seq<u8>, max: nat) -> Option<nat> {
    let d = unsigned_digits(s);
    if d.len() > 0 && all_digits(d) && decimal_value(d) <= max {
        Some(decimal_value(d))
    } else {
        None
    }
}

/// A string of digits is worth at least any of its prefixes.
pub proof fn lemma_decimal_value_prefix(s: Seq<u8>, k: int)
    requires
        0 <= k <= s.len(),
        all_digits(s),
    ensures
        decimal_value(s.take(k)) <= decimal_value(s),
    decreases s.len(),
{
    if k < s.len() {
        assert(all_digits(s.drop_last()));
        lemma_decimal_value_prefix(s.drop_last(), k);
        assert(s.drop_last().take(k) =~= s.take(k));
    } else {
        assert(s.take(k) =~= s);
    }
}

/// Parses an unsigned decimal number whose value is at most `max`, as `str::parse`
/// does for unsigned integer types.
pub fn parse_unsigned(s: &[u8], max: u64) -> (r: Option<u64>)
    ensures
        match spec_parse_unsigned(s@, max as nat) {
            Some(v) => r == Some(v as u64),
            None => r is None,
        },
{
    let start: usize = if s.len() > 0 && s[0] == 43u8 { 1 } else { 0 };
    let ghost d = unsigned_digits(s@);
    assert(d =~= s@.subrange(start as int, s@.len() as int));
    if start == s.len() {
        return None;
    }
    let mut v: u64 = 0;
    let mut i: usize = start;
    while i < s.len()
        invariant
            start <= i <= s.len(),
            d == unsigned_digits(s@),
            d =~= s@.subrange(start as int, s@.len() as int),
            v as nat == decimal_value(d.take(i - start)),
            v <= max,
            all_digits(d.take(i - start)),
        decreases s.len() - i,
    {
        let b = s[i];
        if b < 48u8 || b > 57u8 {
            assert(d[i - start] == b);
            assert(!is_digit(d[i - start]));
            return None;
        }
        let dv: u64 = (b - 48u8) as u64;
        assert(d.take(i - start + 1).drop_last() =~= d.take(i - start));
        assert(d.take(i - start + 1).last() == b);
        assert(decimal_value(d.take(i - start + 1)) == v * 10 + dv);
        if dv > max || v > (max - dv) / 10 {
            proof {
                assert(v * 10 + dv > max) by (nonlinear_arith)
                    requires
                        dv > max || v > (max - dv) / 10,
                        dv <= 9,
                        v >= 0,
                ;
                if all_digits(d) {
                    lemma_decimal_value_prefix(d, i - start + 1);
                }
            }
            return None;
        }
        assert(v * 10 + dv <= max) by (nonlinear_arith)
            requires
                v <= (max - dv) / 10,
                dv <= max,
        ;
        v = v * 10 + dv;
        i = i + 1;
        assert(all_digits(d.take(i - start))) by {
            assert forall|j: int| 0 <= j < d.take(i - start).len() implies is_digit(
                #[trigger] d.take(i - start)[j],
            ) by {
                if j < i - 1 - start {
                    assert(d.take(i - start)[j] == d.take(i - 1 - start)[j]);
                }
            }
        }
    }
    assert(d.take(i - start) =~= d);
    Some(v)
}


/// Byte-wise equality of two byte strings.
pub fn bytes_eq(a: &[u8], b: &[u8]) -> (r: bool)
    ensures
        r == (a@ == b@),
{
    if a.len() != b.len() {
        return false;
    }
    let mut i: usize = 0;
    while i < a.len()
        invariant
            a.len() == b.len(),
            0 <= i <= a.len(),
            forall|j: int| 0 <= j < i ==> a@[j] == b@[j],
        decreases a.len() - i,
    {
        if a[i] != b[i] {
            return false;
        }
        i = i + 1;
    }
    assert(a@ =~= b@);
    true
}

/// `s` begins with `p`.
pub open spec fn has_prefix(s: Seq<u8>, p: Seq<u8>) -> bool {
    p.len() <= s.len() && s.take(p.len() as int) == p
}

/// Whether `s` begins with `p`.
pub fn starts_with(s: &[u8], p: &[u8]) -> (r: bool)
    ensures
        r == has_prefix(s@, p@),
{
    if p.len() > s.len() {
        return false;
    }
    let head = vstd::slice::slice_subrange(s, 0, p.len());
    let r = bytes_eq(head, p);
    assert(head@ =~= s@.take(p@.len() as int));
    r
}

/// The position of the first occurrence of `b` in `s`, if any.
pub open spec fn first_index_of(s: Seq<u8>, b: u8) -> Option<int> {
    if exists|k: int| 0 <= k < s.len() && s[k] == b && (forall|j: int| 0 <= j < k ==> s[j] != b) {
        Some(
            choose|k: int| 0 <= k < s.len() && s[k] == b && (forall|j: int| 0 <= j < k ==> s[j] != b),
        )
    } else {
        None
    }
}

/// Pins down `first_index_of` from a scan that stopped at `k`.
pub proof fn lemma_first_index_of(s: Seq<u8>, b: u8, k: int)
    requires
        0 <= k <= s.len(),
        forall|j: int| 0 <= j < k ==> s[j] != b,
        k < s.len() ==> s[k] == b,
    ensures
        k < s.len() ==> first_index_of(s, b) == Some(k),
        k == s.len() ==> first_index_of(s, b) is None,
{
    if k < s.len() {
        assert(exists|k2: int|
            0 <= k2 < s.len() && s[k2] == b && (forall|j: int| 0 <= j < k2 ==> s[j] != b)) by {
            assert(s[k] == b);
        }
        let c = choose|k2: int|
            0 <= k2 < s.len() && s[k2] == b && (forall|j: int| 0 <= j < k2 ==> s[j] != b);
        if c < k {
            assert(s[c] != b);
        }
        if c > k {
            assert(s[k] != b);
        }
    }
}

/// The position of the first `b` in `s`.
pub fn find_byte(s: &[u8], b: u8) -> (r: Option<usize>)
    ensures
        match r {
            Some(k) => first_index_of(s@, b) == Some(k as int) && k < s.len() && s@[k as int] == b
                && forall|j: int| 0 <= j < k ==> s@[j] != b,
            None => first_index_of(s@, b) is None && forall|j: int| 0 <= j < s.len() ==> s@[j] != b,
        },
{
    let mut i: usize = 0;
    while i < s.len()
        invariant
            0 <= i <= s.len(),
            forall|j: int| 0 <= j < i ==> s@[j] != b,
        decreases s.len() - i,
    {
        if s[i] == b {
            proof {
                lemma_first_index_of(s@, b, i as int);
            }
            return Some(i);
        }
        i = i + 1;
    }
    proof {
        lemma_first_index_of(s@, b, i as int);
    }
    None
}

/// The pieces of `s` between occurrences of `sep`, as `str::split` yields them:
/// an input without `sep` is one piece, and the empty input is one empty piece.
pub open spec fn split_on(s: Seq<u8>, sep: u8) -> Seq<Seq<u8>>
    decreases s.len(),
{
    match first_index_of(s, sep) {
        Some(k) => if 0 <= k < s.len() {
            seq![s.take(k)] + split_on(s.skip(k + 1), sep)
        } else {
            seq![s]
        },
        None => seq![s],
    }
}

/// Splits `s` at every `sep`.
pub fn split_bytes(s: &[u8], sep: u8) -> (r: Vec<Vec<u8>>)
    ensures
        r.deep_view() == split_on(s@, sep),
{
    let mut pieces: Vec<Vec<u8>> = Vec::new();
    let mut rest: &[u8] = s;
    loop
        invariant
            pieces.deep_view() + split_on(rest@, sep) == split_on(s@, sep),
        decreases rest.len(),
    {
        match find_byte(rest, sep) {
            Some(k) => {
                let head = vstd::slice::slice_subrange(rest, 0, k);
                let tail = vstd::slice::slice_subrange(rest, k + 1, rest.len());
                assert(head@ =~= rest@.take(k as int));
                assert(tail@ =~= rest@.skip(k + 1));
                let ghost before = pieces.deep_view();
                let piece = vstd::slice::slice_to_vec(head);
                assert(piece.deep_view() =~= head@);
                pieces.push(piece);
                assert(pieces.deep_view() =~= before + seq![head@]);
                assert(split_on(rest@, sep) == seq![head@] + split_on(tail@, sep));
                assert(before + split_on(rest@, sep) =~= pieces.deep_view() + split_on(tail@, sep));
                rest = tail;
            },
            None => {
                let ghost before = pieces.deep_view();
                let piece = vstd::slice::slice_to_vec(rest);
                assert(piece.deep_view() =~= rest@);
                pieces.push(piece);
                assert(pieces.deep_view() =~= before + seq![rest@]);
                assert(split_on(rest@, sep) == seq![rest@]);
                return pieces;
            },
        }
    }
}


/// `+` or `-`.
pub open spec fn is_sign(b: u8) -> bool {
    b == 43u8 || b == 45u8
}

/// ASCII lower-casing of one byte.
pub open spec fn to_lower(b: u8) -> u8 {
    if 65u8 <= b <= 90u8 {
        (b + 32) as u8
    } else {
        b
    }
}

/// `s`, lower-cased, is the (lower-case) word `w`.
pub open spec fn eq_ignore_ascii_case(s: Seq<u8>, w: Seq<u8>) -> bool {
    s.len() == w.len() && forall|i: int| 0 <= i < s.len() ==> to_lower(#[trigger] s[i]) == w[i]
}

/// `s` without one leading sign, if it has one.
pub open spec fn without_sign(s: Seq<u8>) -> Seq<u8> {
    if s.len() > 0 && is_sign(s[0]) {
        s.drop_first()
    } else {
        s
    }
}

/// `Digit+ | Digit+ '.' Digit* | Digit* '.' Digit+`
pub open spec fn is_mantissa(m: Seq<u8>) -> bool {
    ||| m.len() > 0 && all_digits(m)
    ||| m.len() > 1 && exists|k: int|
        0 <= k < m.len() && m[k] == 46u8 && all_digits(#[trigger] m.take(k)) && all_digits(
            m.skip(k + 1),
        )
}

/// The part after the exponent marker: `Sign? Digit+`
pub open spec fn is_exponent(x: Seq<u8>) -> bool {
    let d = without_sign(x);
    d.len() > 0 && all_digits(d)
}

/// `e` or `E`.
pub open spec fn is_exp_marker(b: u8) -> bool {
    b == 101u8 || b == 69u8
}

/// `Number ::= Mantissa Exp?` with `Exp ::= 'e' Sign? Digit+` (the marker in either case).
pub open spec fn is_number(s: Seq<u8>) -> bool {
    ||| is_mantissa(s)
    ||| exists|e: int|
        0 <= e < s.len() && is_exp_marker(s[e]) && is_mantissa(#[trigger] s.take(e)) && is_exponent(
            s.skip(e + 1),
        )
}

/// The grammar that `str::parse` accepts for a floating-point number, compared
/// after lower-casing: `Sign? ( 'inf' | 'infinity' | 'nan' | Number )`.
pub open spec fn is_float_literal(s: Seq<u8>) -> bool {
    let body = without_sign(s);
    ||| eq_ignore_ascii_case(body, ascii(seq!['i', 'n', 'f']))
    ||| eq_ignore_ascii_case(body, ascii(seq!['i', 'n', 'f', 'i', 'n', 'i', 't', 'y']))
    ||| eq_ignore_ascii_case(body, ascii(seq!['n', 'a', 'n']))
    ||| is_number(body)
}

/// Whether every byte of `s` is a decimal digit.
pub fn is_all_digits(s: &[u8]) -> (r: bool)
    ensures
        r == all_digits(s@),
{
    let mut i: usize = 0;
    while i < s.len()
        invariant
            0 <= i <= s.len(),
            forall|j: int| 0 <= j < i ==> is_digit(s@[j]),
        decreases s.len() - i,
    {
        if s[i] < 48u8 || s[i] > 57u8 {
            assert(!is_digit(s@[i as int]));
            return false;
        }
        i = i + 1;
    }
    true
}

/// Whether `s`, lower-cased, is the lower-case word `w`.
pub fn matches_ignore_ascii_case(s: &[u8], w: &[u8]) -> (r: bool)
    ensures
        r == eq_ignore_ascii_case(s@, w@),
{
    if s.len() != w.len() {
        return false;
    }
    let mut i: usize = 0;
    while i < s.len()
        invariant
            s.len() == w.len(),
            0 <= i <= s.len(),
            forall|j: int| 0 <= j < i ==> to_lower(#[trigger] s@[j]) == w@[j],
        decreases s.len() - i,
    {
        let b = s[i];
        let lower: u8 = if 65u8 <= b && b <= 90u8 { b + 32 } else { b };
        if lower != w[i] {
            return false;
        }
        i = i + 1;
    }
    true
}

/// A mantissa holds only digits and dots.
proof fn lemma_mantissa_bytes(m: Seq<u8>)
    requires
        is_mantissa(m),
    ensures
        forall|i: int| 0 <= i < m.len() ==> is_digit(#[trigger] m[i]) || m[i] == 46u8,
{
    if !(m.len() > 0 && all_digits(m)) {
        let k = choose|k: int|
            0 <= k < m.len() && m[k] == 46u8 && all_digits(#[trigger] m.take(k)) && all_digits(
                m.skip(k + 1),
            );
        assert forall|i: int| 0 <= i < m.len() implies is_digit(#[trigger] m[i]) || m[i] == 46u8 by {
            if i < k {
                assert(m.take(k)[i] == m[i]);
            } else if i > k {
                assert(m.skip(k + 1)[i - k - 1] == m[i]);
            }
        }
    }
}

/// Whether `m` is a mantissa.
fn check_mantissa(m: &[u8]) -> (r: bool)
    ensures
        r == is_mantissa(m@),
{
    match find_byte(m, 46u8) {
        None => {
            let r = m.len() > 0 && is_all_digits(m);
            proof {
                if m@.len() > 1 && exists|k: int|
                    0 <= k < m@.len() && m@[k] == 46u8 && all_digits(#[trigger] m@.take(k))
                        && all_digits(m@.skip(k + 1)) {
                    let k = choose|k: int|
                        0 <= k < m@.len() && m@[k] == 46u8 && all_digits(#[trigger] m@.take(k))
                            && all_digits(m@.skip(k + 1));
                    assert(m@[k] != 46u8);
                }
            }
            r
        },
        Some(k) => {
            let head = vstd::slice::slice_subrange(m, 0, k);
            let tail = vstd::slice::slice_subrange(m, k + 1, m.len());
            assert(head@ =~= m@.take(k as int));
            assert(tail@ =~= m@.skip(k + 1));
            let r = m.len() > 1 && is_all_digits(head) && is_all_digits(tail);
            proof {
                assert(!is_digit(m@[k as int]));
                if is_mantissa(m@) {
                    let k2 = choose|k2: int|
                        0 <= k2 < m@.len() && m@[k2] == 46u8 && all_digits(#[trigger] m@.take(k2))
                            && all_digits(m@.skip(k2 + 1));
                    if k2 < k {
                        assert(m@[k2] != 46u8);
                    }
                    if k2 > k {
                        assert(m@.take(k2)[k as int] == m@[k as int]);
                    }
                }
                if r {
                    assert(m@.take(k as int) == head@);
                }
            }
            r
        },
    }
}

/// Whether `x` is an exponent's digits with an optional sign.
fn check_exponent(x: &[u8]) -> (r: bool)
    ensures
        r == is_exponent(x@),
{
    let start: usize = if x.len() > 0 && (x[0] == 43u8 || x[0] == 45u8) { 1 } else { 0 };
    let d = vstd::slice::slice_subrange(x, start, x.len());
    assert(d@ =~= without_sign(x@));
    d.len() > 0 && is_all_digits(d)
}

/// Whether `s` is a decimal number with an optional exponent.
fn check_number(s: &[u8]) -> (r: bool)
    ensures
        r == is_number(s@),
{
    let mut i: usize = 0;
    while i < s.len() && s[i] != 101u8 && s[i] != 69u8
        invariant
            0 <= i <= s.len(),
            forall|j: int| 0 <= j < i ==> !is_exp_marker(s@[j]),
        decreases s.len() - i,
    {
        i = i + 1;
    }
    if i == s.len() {
        let r = check_mantissa(s);
        proof {
            if exists|e: int|
                0 <= e < s@.len() && is_exp_marker(s@[e]) && is_mantissa(#[trigger] s@.take(e))
                    && is_exponent(s@.skip(e + 1)) {
                let e = choose|e: int|
                    0 <= e < s@.len() && is_exp_marker(s@[e]) && is_mantissa(#[trigger] s@.take(e))
                        && is_exponent(s@.skip(e + 1));
                assert(!is_exp_marker(s@[e]));
            }
        }
        r
    } else {
        let head = vstd::slice::slice_subrange(s, 0, i);
        let tail = vstd::slice::slice_subrange(s, i + 1, s.len());
        assert(head@ =~= s@.take(i as int));
        assert(tail@ =~= s@.skip(i + 1));
        let r = check_mantissa(head) && check_exponent(tail);
        proof {
            if r {
                assert(is_exp_marker(s@[i as int]));
                assert(is_mantissa(s@.take(i as int)) && is_exponent(s@.skip(i + 1)));
            }
            if is_mantissa(s@) {
                lemma_mantissa_bytes(s@);
                assert(is_digit(s@[i as int]) || s@[i as int] == 46u8);
            }
            if exists|e: int|
                0 <= e < s@.len() && is_exp_marker(s@[e]) && is_mantissa(#[trigger] s@.take(e))
                    && is_exponent(s@.skip(e + 1)) {
                let e = choose|e: int|
                    0 <= e < s@.len() && is_exp_marker(s@[e]) && is_mantissa(#[trigger] s@.take(e))
                        && is_exponent(s@.skip(e + 1));
                if e > i {
                    lemma_mantissa_bytes(s@.take(e));
                    assert(s@.take(e)[i as int] == s@[i as int]);
                }
                if e < i {
                    assert(!is_exp_marker(s@[e]));
                }
            }
        }
        r
    }
}

/// Whether `s` is a floating-point literal as `str::parse` accepts it.
pub fn check_float_literal(s: &[u8]) -> (r: bool)
    ensures
        r == is_float_literal(s@),
{
    let start: usize = if s.len() > 0 && (s[0] == 43u8 || s[0] == 45u8) { 1 } else { 0 };
    let body = vstd::slice::slice_subrange(s, start, s.len());
    assert(body@ =~= without_sign(s@));
    let inf: [u8; 3] = [105u8, 110u8, 102u8];
    let infinity: [u8; 8] = [105u8, 110u8, 102u8, 105u8, 110u8, 105u8, 116u8, 121u8];
    let nan: [u8; 3] = [110u8, 97u8, 110u8];
    assert(inf@ =~= ascii(seq!['i', 'n', 'f']));
    assert(infinity@ =~= ascii(seq!['i', 'n', 'f', 'i', 'n', 'i', 't', 'y']));
    assert(nan@ =~= ascii(seq!['n', 'a', 'n']));
    matches_ignore_ascii_case(body, &inf) || matches_ignore_ascii_case(body, &infinity)
        || matches_ignore_ascii_case(body, &nan) || check_number(body)
}


/// Splitting at a separator that joins two strings splits each of them:
/// the pieces of `a + sep + b` are the pieces of `a`, then those of `b`.
pub proof fn law_split_concat(a: Seq<u8>, b: Seq<u8>, sep: u8)
    ensures
        split_on(a + seq![sep] + b, sep) == split_on(a, sep) + split_on(b, sep),
    decreases a.len(),
{
    let whole = a + seq![sep] + b;
    match first_index_of(a, sep) {
        Some(k) => {
            assert(0 <= k < a.len() && a[k] == sep && forall|j: int| 0 <= j < k ==> a[j] != sep);
            assert forall|j: int| 0 <= j < k implies whole[j] != sep by {
                assert(whole[j] == a[j]);
            }
            lemma_first_index_of(whole, sep, k);
            assert(whole.take(k) =~= a.take(k));
            assert(whole.skip(k + 1) =~= a.skip(k + 1) + seq![sep] + b);
            law_split_concat(a.skip(k + 1), b, sep);
            assert(split_on(a, sep) == seq![a.take(k)] + split_on(a.skip(k + 1), sep));
            assert(split_on(whole, sep) =~= split_on(a, sep) + split_on(b, sep));
        },
        None => {
            assert forall|j: int| 0 <= j < a.len() implies whole[j] != sep by {
                assert(whole[j] == a[j]);
                if a[j] == sep {
                    lemma_exists_first(a, sep, j);
                }
            }
            assert(whole[a.len() as int] == sep);
            lemma_first_index_of(whole, sep, a.len() as int);
            assert(whole.take(a.len() as int) =~= a);
            assert(whole.skip(a.len() as int + 1) =~= b);
            assert(split_on(whole, sep) =~= split_on(a, sep) + split_on(b, sep));
        },
    }
}

/// If `b` occurs in `s`, it has a first occurrence.
proof fn lemma_exists_first(s: Seq<u8>, b: u8, k: int)
    requires
        0 <= k < s.len(),
        s[k] == b,
    ensures
        exists|k2: int| 0 <= k2 < s.len() && s[k2] == b && (forall|j: int| 0 <= j < k2 ==> s[j] != b),
    decreases k,
{
    if exists|j: int| 0 <= j < k && s[j] == b {
        let j = choose|j: int| 0 <= j < k && s[j] == b;
        lemma_exists_first(s, b, j);
    } else {
        assert(forall|j: int| 0 <= j < k ==> s[j] != b);
    }
}

/// A string without the separator is one piece.
pub proof fn lemma_split_without_sep(s: Seq<u8>, sep: u8)
    requires
        forall|j: int| 0 <= j < s.len() ==> s[j] != sep,
    ensures
        split_on(s, sep) == seq![s],
{
    lemma_first_index_of(s, sep, s.len() as int);
}

} // verus!
