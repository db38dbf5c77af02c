//! The wire formats the protocol's remote calls carry, parsed and verified.
//!
//! Three messages cross component boundaries as bytes: the boolean a
//! transfer receiver's hook returns, the price inside an approval
//! notification (`{"sale_conditions":"<decimal>"}`), and the payout split a
//! settlement returns (`{"payout":{"<account>":"<decimal>",...}}`).  The
//! grammars are fixed here as specification functions, and each executable
//! parser returns exactly what its grammar assigns to the input: amounts are
//! decimal strings that must fit the balance type, account names are
//! non-empty runs of printable characters other than quote and backslash,
//! and anything else is rejected.

use vstd::prelude::*;

verus! {

/// An ASCII decimal digit.
pub open spec fn is_digit(c: u8) -> bool {
    48 <= c <= 57
}

/// Every byte of `s` is a digit.
pub open spec fn all_digits(s: Seq<u8>) -> bool {
    forall|i: int| 0 <= i < s.len() ==> is_digit(#[trigger] s[i])
}

/// The number the digit run `s` denotes.
pub open spec fn digits_val(s: Seq<u8>) -> int
    decreases s.len(),
{
    if s.len() == 0 {
        0
    } else {
        digits_val(s.drop_last()) * 10 + (s.last() - 48)
    }
}

/// A digit run denotes a non-negative number, and a prefix never denotes
/// more than the whole.
pub proof fn lemma_digits_val_prefix(s: Seq<u8>, k: int)
    requires
        all_digits(s),
        0 <= k <= s.len(),
    ensures
        0 <= digits_val(s.subrange(0, k)),
        digits_val(s.subrange(0, k)) <= digits_val(s),
    decreases s.len() - k,
{
    if k == s.len() {
        assert(s.subrange(0, k) =~= s);
        lemma_digits_val_nonneg(s);
    } else {
        lemma_digits_val_prefix(s, k + 1);
        lemma_digits_val_nonneg(s.subrange(0, k));
        assert(s.subrange(0, k + 1).drop_last() =~= s.subrange(0, k));
        assert(digits_val(s.subrange(0, k + 1)) == digits_val(s.subrange(0, k)) * 10 + (s[k]
            - 48));
    }
}

/// A digit run denotes a non-negative number.
pub proof fn lemma_digits_val_nonneg(s: Seq<u8>)
    requires
        all_digits(s),
    ensures
        digits_val(s) >= 0,
    decreases s.len(),
{
    if s.len() > 0 {
        assert(is_digit(s.last()));
        lemma_digits_val_nonneg(s.drop_last());
    }
}

/// A non-empty digit run denoting a number that fits the balance type.
pub open spec fn spec_parse_u128(s: Seq<u8>) -> Option<u128> {
    if s.len() >= 1 && all_digits(s) && digits_val(s) <= u128::MAX {
        Some(digits_val(s) as u128)
    } else {
        None
    }
}

/// Parses `v[from..to]` as a decimal number.
pub fn parse_u128_range(v: &Vec<u8>, from: usize, to: usize) -> (r: Option<u128>)
    requires
        from <= to <= v@.len(),
    ensures
        r == spec_parse_u128(v@.subrange(from as int, to as int)),
{
    let ghost w = v@.subrange(from as int, to as int);
    if from == to {
        return None;
    }
    let mut acc: u128 = 0;
    let mut i: usize = from;
    while i < to
        invariant
            from <= i <= to <= v@.len(),
            w == v@.subrange(from as int, to as int),
            w.len() == to - from,
            all_digits(w.subrange(0, i - from)),
            acc == digits_val(w.subrange(0, i - from)),
        decreases to - i,
    {
        let c = v[i];
        proof {
            assert(w[i - from] == v@[i as int]);
        }
        if c < 48 || c > 57 {
            proof {
                assert(!is_digit(w[i - from]));
            }
            return None;
        }
        let d: u128 = (c - 48) as u128;
        proof {
            assert(w.subrange(0, i - from + 1).drop_last() =~= w.subrange(0, i - from));
            assert(w.subrange(0, i - from + 1).last() == w[i - from]);
        }
        if acc > (u128::MAX - d) / 10 {
            proof {
                assert(acc * 10 + d > u128::MAX) by (nonlinear_arith)
                    requires
                        acc > (u128::MAX - d) / 10,
                        d <= 9,
                ;
                assert(digits_val(w.subrange(0, i - from + 1)) == acc * 10 + d);
                if all_digits(w) {
                    lemma_digits_val_prefix(w, i - from + 1);
                    assert(digits_val(w) > u128::MAX);
                }
            }
            return None;
        }
        proof {
            assert(acc * 10 + d <= u128::MAX) by (nonlinear_arith)
                requires
                    acc <= (u128::MAX - d) / 10,
                    d <= 9,
            ;
        }
        acc = acc * 10 + d;
        i += 1;
    }
    proof {
        assert(w.subrange(0, (to - from) as int) =~= w);
    }
    Some(acc)
}

/// The bytes of `true` and of `false`.
pub open spec fn bool_token(b: bool) -> Seq<u8> {
    if b {
        seq![116u8, 114u8, 117u8, 101u8]
    } else {
        seq![102u8, 97u8, 108u8, 115u8, 101u8]
    }
}

/// The boolean the bytes denote: exactly `true` or `false`.
pub open spec fn spec_parse_bool(s: Seq<u8>) -> Option<bool> {
    if s == bool_token(true) {
        Some(true)
    } else if s == bool_token(false) {
        Some(false)
    } else {
        None
    }
}

/// Parses the boolean a transfer receiver's hook returned.
pub fn parse_bool(v: &Vec<u8>) -> (r: Option<bool>)
    ensures
        r == spec_parse_bool(v@),
{
    if v.len() == 4 && v[0] == 116 && v[1] == 114 && v[2] == 117 && v[3] == 101 {
        proof {
            assert(v@ =~= bool_token(true));
        }
        Some(true)
    } else if v.len() == 5 && v[0] == 102 && v[1] == 97 && v[2] == 108 && v[3] == 115 && v[4]
        == 101 {
        proof {
            assert(v@ =~= bool_token(false));
        }
        Some(false)
    } else {
        proof {
            if v@ == bool_token(true) {
                assert(v@.len() == 4 && v@[0] == 116 && v@[1] == 114 && v@[2] == 117 && v@[3]
                    == 101);
            }
            if v@ == bool_token(false) {
                assert(v@.len() == 5 && v@[0] == 102 && v@[1] == 97 && v@[2] == 108 && v@[3]
                    == 115 && v@[4] == 101);
            }
        }
        None
    }
}

/// Whether `v` carries `pat` at position `at`.
pub fn slice_matches(v: &Vec<u8>, at: usize, pat: &Vec<u8>) -> (b: bool)
    requires
        at + pat@.len() <= v@.len(),
    ensures
        b == (v@.subrange(at as int, at + pat@.len()) == pat@),
{
    let n = pat.len();
    let vn = v.len();
    let mut i: usize = 0;
    while i < n
        invariant
            i <= n,
            n == pat@.len(),
            vn == v@.len(),
            at + n <= vn,
            forall|k: int| 0 <= k < i ==> v@[at + k] == pat@[k],
        decreases n - i,
    {
        if v[at + i] != pat[i] {
            proof {
                assert(v@.subrange(at as int, at + pat@.len())[i as int] != pat@[i as int]);
            }
            return false;
        }
        i += 1;
    }
    proof {
        assert(v@.subrange(at as int, at + pat@.len()) =~= pat@);
    }
    true
}

/// A byte allowed in an account name on the wire: printable, not the
/// quote, not the backslash.
pub open spec fn is_key_byte(c: u8) -> bool {
    32 <= c <= 126 && c != 34 && c != 92
}

/// The characters the account-name bytes denote.
pub open spec fn key_chars(s: Seq<u8>) -> Seq<char> {
    s.map_values(|b: u8| b as char)
}

/// Relies on String::from_utf8: bytes below 128 are one-byte code points,
/// so they decode to exactly those characters.
#[verifier::external_body]
fn ascii_bytes_to_string(v: Vec<u8>) -> (r: String)
    requires
        forall|i: int| 0 <= i < v@.len() ==> v@[i] < 128,
    ensures
        r@ == key_chars(v@),
{
    match String::from_utf8(v) {
        Ok(s) => s,
        Err(_) => String::new(),
    }
}

/// Whether `c` is an account-name byte.
fn is_key_byte_exec(c: u8) -> (b: bool)
    ensures
        b == is_key_byte(c),
{
    32 <= c && c <= 126 && c != 34 && c != 92
}

/// The opening bytes of a sale-conditions message.
pub open spec fn sale_args_prefix() -> Seq<u8> {
    seq![
        123u8, 34u8, 115u8, 97u8, 108u8, 101u8, 95u8, 99u8, 111u8, 110u8, 100u8, 105u8, 116u8,
        105u8, 111u8, 110u8, 115u8, 34u8, 58u8, 34u8,
    ]
}

/// The closing quote-and-brace of a sale-conditions message.
pub open spec fn quote_close() -> Seq<u8> {
    seq![34u8, 125u8]
}

/// The price a sale-conditions message denotes.
pub open spec fn spec_parse_sale_args(s: Seq<u8>) -> Option<u128> {
    if s.len() >= 23 && s.subrange(0, 20) == sale_args_prefix() && s.subrange(
        s.len() - 2,
        s.len() as int,
    ) == quote_close() {
        spec_parse_u128(s.subrange(20, s.len() - 2))
    } else {
        None
    }
}

/// The opening bytes of a sale-conditions message, as a vector.
fn sale_args_prefix_vec() -> (r: Vec<u8>)
    ensures
        r@ == sale_args_prefix(),
{
    let mut v: Vec<u8> = Vec::new();
    v.push(123);
    v.push(34);
    v.push(115);
    v.push(97);
    v.push(108);
    v.push(101);
    v.push(95);
    v.push(99);
    v.push(111);
    v.push(110);
    v.push(100);
    v.push(105);
    v.push(116);
    v.push(105);
    v.push(111);
    v.push(110);
    v.push(115);
    v.push(34);
    v.push(58);
    v.push(34);
    proof {
        assert(v@ =~= sale_args_prefix());
    }
    v
}

/// Parses the price out of a sale-conditions message.
pub fn parse_sale_args(v: &Vec<u8>) -> (r: Option<u128>)
    ensures
        r == spec_parse_sale_args(v@),
{
    let n = v.len();
    if n < 23 {
        return None;
    }
    let p = sale_args_prefix_vec();
    if !slice_matches(v, 0, &p) {
        return None;
    }
    if v[n - 2] != 34 || v[n - 1] != 125 {
        proof {
            if v@.subrange(n - 2, n as int) == quote_close() {
                assert(v@.subrange(n - 2, n as int)[0] == 34);
                assert(v@.subrange(n - 2, n as int)[1] == 125);
            }
        }
        return None;
    }
    proof {
        assert(v@.subrange(n - 2, n as int) =~= quote_close());
    }
    parse_u128_range(v, 20, n - 2)
}

/// The position where the run of account-name bytes starting at `i` ends.
pub open spec fn key_end(s: Seq<u8>, i: int) -> int
    decreases s.len() - i,
{
    if i < 0 || i >= s.len() || !is_key_byte(s[i]) {
        i
    } else {
        key_end(s, i + 1)
    }
}

/// The position where the run of digits starting at `i` ends.
pub open spec fn digit_end(s: Seq<u8>, i: int) -> int
    decreases s.len() - i,
{
    if i < 0 || i >= s.len() || !is_digit(s[i]) {
        i
    } else {
        digit_end(s, i + 1)
    }
}

/// The scan runs forward, covers only account-name bytes, and stops at the
/// first byte that is none.
pub proof fn lemma_key_end_props(s: Seq<u8>, i: int)
    requires
        0 <= i <= s.len(),
    ensures
        i <= key_end(s, i) <= s.len(),
        forall|m: int| i <= m < key_end(s, i) ==> is_key_byte(#[trigger] s[m]),
    decreases s.len() - i,
{
    if i < s.len() && is_key_byte(s[i]) {
        lemma_key_end_props(s, i + 1);
    }
}

/// The scan runs forward, covers only digits, and stops at the first byte
/// that is none.
pub proof fn lemma_digit_end_props(s: Seq<u8>, i: int)
    requires
        0 <= i <= s.len(),
    ensures
        i <= digit_end(s, i) <= s.len(),
        forall|m: int| i <= m < digit_end(s, i) ==> is_digit(#[trigger] s[m]),
    decreases s.len() - i,
{
    if i < s.len() && is_digit(s[i]) {
        lemma_digit_end_props(s, i + 1);
    }
}

/// One payout entry at position `i`: a quoted non-empty account name, a
/// colon, and a quoted amount; the result carries the position after the
/// closing quote.
pub open spec fn parse_entry(s: Seq<u8>, i: int) -> Option<((Seq<u8>, u128), int)> {
    if 0 <= i < s.len() && s[i] == 34 {
        let ke = key_end(s, i + 1);
        if ke > i + 1 && ke < s.len() && s[ke] == 34 && ke + 2 < s.len() && s[ke + 1] == 58 && s[ke
            + 2] == 34 {
            let de = digit_end(s, ke + 3);
            if de > ke + 3 && de < s.len() && s[de] == 34 && digits_val(s.subrange(ke + 3, de))
                <= u128::MAX {
                Some(((s.subrange(i + 1, ke), digits_val(s.subrange(ke + 3, de)) as u128), de + 1))
            } else {
                None
            }
        } else {
            None
        }
    } else {
        None
    }
}

/// A comma-separated run of payout entries starting at `i`; the result
/// carries the position after the last entry.  The fuel only bounds the
/// recursion and never runs out on positions inside the message.
pub open spec fn parse_entries(s: Seq<u8>, i: int, fuel: int) -> Option<
    (Seq<(Seq<u8>, u128)>, int),
>
    decreases fuel,
{
    if fuel <= 0 {
        None
    } else {
        match parse_entry(s, i) {
            None => None,
            Some(entry) => {
                let e = entry.0;
                let j = entry.1;
                if j < s.len() && s[j] == 44 {
                    match parse_entries(s, j + 1, fuel - 1) {
                        None => None,
                        Some(rest) => Some((seq![e] + rest.0, rest.1)),
                    }
                } else {
                    Some((seq![e], j))
                }
            },
        }
    }
}

/// The opening bytes of a payout message.
pub open spec fn payout_prefix() -> Seq<u8> {
    seq![123u8, 34u8, 112u8, 97u8, 121u8, 111u8, 117u8, 116u8, 34u8, 58u8, 123u8]
}

/// The closing braces of a payout message.
pub open spec fn payout_suffix() -> Seq<u8> {
    seq![125u8, 125u8]
}

/// The entries a payout message denotes, account names as characters.
pub open spec fn spec_parse_payout(s: Seq<u8>) -> Option<Seq<(Seq<char>, u128)>> {
    if s.len() >= 13 && s.subrange(0, 11) == payout_prefix() && s.subrange(
        s.len() - 2,
        s.len() as int,
    ) == payout_suffix() {
        if s.len() == 13 {
            Some(Seq::empty())
        } else {
            match parse_entries(s, 11, s.len() as int) {
                None => None,
                Some(r) => {
                    if r.1 == s.len() - 2 {
                        Some(r.0.map_values(|e: (Seq<u8>, u128)| (key_chars(e.0), e.1)))
                    } else {
                        None
                    }
                },
            }
        }
    } else {
        None
    }
}

/// The opening bytes of a payout message, as a vector.
fn payout_prefix_vec() -> (r: Vec<u8>)
    ensures
        r@ == payout_prefix(),
{
    let mut v: Vec<u8> = Vec::new();
    v.push(123);
    v.push(34);
    v.push(112);
    v.push(97);
    v.push(121);
    v.push(111);
    v.push(117);
    v.push(116);
    v.push(34);
    v.push(58);
    v.push(123);
    proof {
        assert(v@ =~= payout_prefix());
    }
    v
}

/// Parses one payout entry at position `i`, the account name as a string.
fn parse_entry_at(v: &Vec<u8>, i: usize) -> (r: Option<(String, u128, usize)>)
    ensures
        match r {
            Some(t) => parse_entry(v@, i as int) matches Some(pe) && t.0@ == key_chars(pe.0.0)
                && t.1 == pe.0.1 && t.2 == pe.1 && i < t.2 <= v@.len(),
            None => parse_entry(v@, i as int) is None,
        },
{
    let n = v.len();
    if i >= n || v[i] != 34 {
        return None;
    }
    let mut j: usize = i + 1;
    while j < n && is_key_byte_exec(v[j])
        invariant
            i + 1 <= j <= n,
            n == v@.len(),
            i < n,
            key_end(v@, i + 1 as int) == key_end(v@, j as int),
        decreases n - j,
    {
        proof {
            assert(key_end(v@, j as int) == key_end(v@, j + 1 as int));
        }
        j += 1;
    }
    proof {
        assert(key_end(v@, j as int) == j);
    }
    let ke = j;
    if ke == i + 1 {
        return None;
    }
    if ke >= n || v[ke] != 34 {
        return None;
    }
    if n - ke < 3 {
        return None;
    }
    if v[ke + 1] != 58 || v[ke + 2] != 34 {
        return None;
    }
    let ds = ke + 3;
    let mut k2: usize = ds;
    while k2 < n && v[k2] >= 48 && v[k2] <= 57
        invariant
            ds <= k2 <= n,
            n == v@.len(),
            ds <= n,
            digit_end(v@, ds as int) == digit_end(v@, k2 as int),
        decreases n - k2,
    {
        proof {
            assert(digit_end(v@, k2 as int) == digit_end(v@, k2 + 1 as int));
        }
        k2 += 1;
    }
    proof {
        assert(digit_end(v@, k2 as int) == k2);
    }
    let de = k2;
    if de == ds {
        return None;
    }
    if de >= n || v[de] != 34 {
        return None;
    }
    proof {
        lemma_digit_end_props(v@, ds as int);
        assert(all_digits(v@.subrange(ds as int, de as int)));
    }
    let value: u128 = match parse_u128_range(v, ds, de) {
        Some(x) => x,
        None => {
            return None;
        },
    };
    let mut key_bytes: Vec<u8> = Vec::new();
    let mut m: usize = i + 1;
    while m < ke
        invariant
            i + 1 <= m <= ke,
            ke <= n,
            n == v@.len(),
            key_bytes@ == v@.subrange(i + 1 as int, m as int),
        decreases ke - m,
    {
        key_bytes.push(v[m]);
        proof {
            assert(key_bytes@ =~= v@.subrange(i + 1 as int, m + 1 as int));
        }
        m += 1;
    }
    proof {
        lemma_key_end_props(v@, i + 1 as int);
        assert(forall|q: int|
            0 <= q < key_bytes@.len() ==> is_key_byte(#[trigger] key_bytes@[q]));
    }
    let key = ascii_bytes_to_string(key_bytes);
    proof {
        assert(parse_entry(v@, i as int) == Some(
            ((v@.subrange(i + 1 as int, ke as int), value), de + 1 as int),
        ));
    }
    Some((key, value, de + 1))
}

/// The mathematical view of parsed payout entries.
pub open spec fn payout_view(es: Seq<(String, u128)>) -> Seq<(Seq<char>, u128)> {
    es.map_values(|p: (String, u128)| (p.0@, p.1))
}

/// Parses a payout message into its entries.
pub fn parse_payout(v: &Vec<u8>) -> (r: Option<Vec<(String, u128)>>)
    ensures
        match r {
            Some(es) => spec_parse_payout(v@) == Some(payout_view(es@)),
            None => spec_parse_payout(v@) is None,
        },
{
    let n = v.len();
    if n < 13 {
        return None;
    }
    let p = payout_prefix_vec();
    if !slice_matches(v, 0, &p) {
        return None;
    }
    if v[n - 2] != 125 || v[n - 1] != 125 {
        proof {
            if v@.subrange(n - 2, n as int) == payout_suffix() {
                assert(v@.subrange(n - 2, n as int)[0] == 125);
                assert(v@.subrange(n - 2, n as int)[1] == 125);
            }
        }
        return None;
    }
    proof {
        assert(v@.subrange(n - 2, n as int) =~= payout_suffix());
    }
    if n == 13 {
        let es: Vec<(String, u128)> = Vec::new();
        proof {
            assert(payout_view(es@) =~= Seq::<(Seq<char>, u128)>::empty());
        }
        return Some(es);
    }
    let ghost total: int = v@.len() as int;
    let mut out: Vec<(String, u128)> = Vec::new();
    let mut pos: usize = 11;
    let ghost mut raw_acc: Seq<(Seq<u8>, u128)> = Seq::empty();
    let ghost mut fuel: int = total;
    proof {
        if parse_entries(v@, 11, total) is Some {
            let rest = parse_entries(v@, 11, total).unwrap();
            assert(raw_acc + rest.0 =~= rest.0);
        }
    }
    while pos < n
        invariant
            11 <= pos <= n,
            n == v@.len(),
            n >= 14,
            total == n as int,
            v@.subrange(n - 2, n as int) == payout_suffix(),
            v@.subrange(0, 11) == payout_prefix(),
            fuel >= n - pos + 1,
            out@.len() == raw_acc.len(),
            forall|q: int|
                0 <= q < raw_acc.len() ==> (#[trigger] out@[q]).0@ == key_chars(raw_acc[q].0)
                    && out@[q].1 == raw_acc[q].1,
            match parse_entries(v@, pos as int, fuel) {
                None => parse_entries(v@, 11, total) is None,
                Some(rest) => parse_entries(v@, 11, total) == Some((raw_acc + rest.0, rest.1)),
            },
        decreases n - pos,
    {
        match parse_entry_at(v, pos) {
            None => {
                proof {
                    assert(parse_entries(v@, pos as int, fuel) is None);
                }
                return None;
            },
            Some(t) => {
                let (key, value, j) = t;
                let ghost e = parse_entry(v@, pos as int).unwrap().0;
                out.push((key, value));
                if j < n && v[j] == 44 {
                    proof {
                        let inner = parse_entries(v@, j + 1 as int, fuel - 1);
                        match inner {
                            None => {
                                assert(parse_entries(v@, pos as int, fuel) is None);
                            },
                            Some(rest) => {
                                assert(parse_entries(v@, pos as int, fuel) == Some(
                                    (seq![e] + rest.0, rest.1),
                                ));
                                assert(raw_acc + (seq![e] + rest.0) =~= (raw_acc + seq![e])
                                    + rest.0);
                            },
                        }
                        raw_acc = raw_acc + seq![e];
                        fuel = fuel - 1;
                    }
                    pos = j + 1;
                } else {
                    proof {
                        assert(parse_entries(v@, pos as int, fuel) == Some((seq![e], j as int)));
                        assert(parse_entries(v@, 11, total) == Some(
                            (raw_acc + seq![e], j as int),
                        ));
                    }
                    if j == n - 2 {
                        proof {
                            let es_raw = raw_acc + seq![e];
                            assert(payout_view(out@) =~= es_raw.map_values(
                                |e2: (Seq<u8>, u128)| (key_chars(e2.0), e2.1),
                            ));
                        }
                        return Some(out);
                    } else {
                        proof {
                            assert(spec_parse_payout(v@) is None);
                        }
                        return None;
                    }
                }
            },
        }
    }
    proof {
        assert(parse_entry(v@, pos as int) is None);
        assert(parse_entries(v@, pos as int, fuel) is None);
    }
    None
}

} // verus!
