//! The on-disk shape of a cached credential record.
//!
//! A record is persisted as one structured-text object with four named
//! fields: the three secret strings and a decimal expiry timestamp.
//! String fields escape the quote and backslash bytes; the timestamp is
//! canonical decimal (no leading zeros).  The parser accepts exactly the
//! encoder's output: anything else is reported as unparseable, which the
//! cache layer treats as "no usable cache".

use vstd::prelude::*;

use crate::credentials::CachedCredentialRecord;
use crate::credentials::RecordView;

verus! {

use vstd::arithmetic::div_mod::lemma_fundamental_div_mod;
use vstd::arithmetic::div_mod::lemma_fundamental_div_mod_converse;

pub const QUOTE: u8 = 34;
pub const BACKSLASH: u8 = 92;
pub const CLOSE_BRACE: u8 = 125;

// --- field-name literals -------------------------------------------------

/// `{"access_key_id":"`
pub open spec fn spec_lit_open() -> Seq<u8> {
    seq![123u8, 34u8, 97u8, 99u8, 99u8, 101u8, 115u8, 115u8, 95u8, 107u8, 101u8, 121u8, 95u8,
        105u8, 100u8, 34u8, 58u8, 34u8]
}

/// `","secret_access_key":"` without its leading quote, which the field
/// parser consumes as the previous field's terminator.
pub open spec fn spec_lit_sep_secret() -> Seq<u8> {
    seq![44u8, 34u8, 115u8, 101u8, 99u8, 114u8, 101u8, 116u8, 95u8, 97u8, 99u8, 99u8, 101u8,
        115u8, 115u8, 95u8, 107u8, 101u8, 121u8, 34u8, 58u8, 34u8]
}

/// `","session_token":"` without its leading quote.
pub open spec fn spec_lit_sep_token() -> Seq<u8> {
    seq![44u8, 34u8, 115u8, 101u8, 115u8, 115u8, 105u8, 111u8, 110u8, 95u8, 116u8, 111u8, 107u8,
        101u8, 110u8, 34u8, 58u8, 34u8]
}

/// `","expiration":` without its leading quote.
pub open spec fn spec_lit_sep_expiration() -> Seq<u8> {
    seq![44u8, 34u8, 101u8, 120u8, 112u8, 105u8, 114u8, 97u8, 116u8, 105u8, 111u8, 110u8, 34u8,
        58u8]
}

fn lit_open() -> (v: Vec<u8>)
    ensures
        v@ == spec_lit_open(),
{
    let v: Vec<u8> = vec![123u8, 34u8, 97u8, 99u8, 99u8, 101u8, 115u8, 115u8, 95u8, 107u8, 101u8,
        121u8, 95u8, 105u8, 100u8, 34u8, 58u8, 34u8];
    proof {
        assert(v@ =~= spec_lit_open());
    }
    v
}

fn lit_sep_secret() -> (v: Vec<u8>)
    ensures
        v@ == spec_lit_sep_secret(),
{
    let v: Vec<u8> = vec![44u8, 34u8, 115u8, 101u8, 99u8, 114u8, 101u8, 116u8, 95u8, 97u8, 99u8,
        99u8, 101u8, 115u8, 115u8, 95u8, 107u8, 101u8, 121u8, 34u8, 58u8, 34u8];
    proof {
        assert(v@ =~= spec_lit_sep_secret());
    }
    v
}

fn lit_sep_token() -> (v: Vec<u8>)
    ensures
        v@ == spec_lit_sep_token(),
{
    let v: Vec<u8> = vec![44u8, 34u8, 115u8, 101u8, 115u8, 115u8, 105u8, 111u8, 110u8, 95u8,
        116u8, 111u8, 107u8, 101u8, 110u8, 34u8, 58u8, 34u8];
    proof {
        assert(v@ =~= spec_lit_sep_token());
    }
    v
}

fn lit_sep_expiration() -> (v: Vec<u8>)
    ensures
        v@ == spec_lit_sep_expiration(),
{
    let v: Vec<u8> = vec![44u8, 34u8, 101u8, 120u8, 112u8, 105u8, 114u8, 97u8, 116u8, 105u8,
        111u8, 110u8, 34u8, 58u8];
    proof {
        assert(v@ =~= spec_lit_sep_expiration());
    }
    v
}

// --- string-field escaping -----------------------------------------------

/// How one byte of a string field is written: quote and backslash get a
/// backslash prefix, everything else stands for itself.
pub open spec fn esc_byte(b: u8) -> Seq<u8> {
    if b == QUOTE || b == BACKSLASH {
        seq![BACKSLASH, b]
    } else {
        seq![b]
    }
}

/// The escaped form of a whole string field.
pub open spec fn esc(s: Seq<u8>) -> Seq<u8>
    decreases s.len(),
{
    if s.len() == 0 {
        Seq::empty()
    } else {
        esc_byte(s[0]) + esc(s.skip(1))
    }
}

pub proof fn lemma_esc_app(a: Seq<u8>, b: Seq<u8>)
    ensures
        esc(a + b) == esc(a) + esc(b),
    decreases a.len(),
{
    if a.len() == 0 {
        assert(a + b =~= b);
        assert(esc(a) + esc(b) =~= esc(b));
    } else {
        assert((a + b).skip(1) =~= a.skip(1) + b);
        lemma_esc_app(a.skip(1), b);
        assert((a + b)[0] == a[0]);
        assert(esc_byte(a[0]) + (esc(a.skip(1)) + esc(b)) =~= (esc_byte(a[0]) + esc(a.skip(1)))
            + esc(b));
    }
}

// --- decimal timestamps ---------------------------------------------------

pub open spec fn is_digit(b: u8) -> bool {
    48 <= b && b <= 57
}

/// Canonical decimal digits of `n`, most significant first.
pub open spec fn dec_digits(n: nat) -> Seq<u8>
    decreases n,
{
    if n < 10 {
        seq![(48 + n) as u8]
    } else {
        dec_digits(n / 10) + seq![(48 + n % 10) as u8]
    }
}

/// The number a digit string denotes.
pub open spec fn dec_value(ds: Seq<u8>) -> nat
    decreases ds.len(),
{
    if ds.len() == 0 {
        0
    } else {
        (dec_value(ds.drop_last()) * 10 + (ds.last() - 48)) as nat
    }
}

/// How many leading bytes of `s` are decimal digits.
pub open spec fn digit_run_len(s: Seq<u8>) -> nat
    decreases s.len(),
{
    if s.len() > 0 && is_digit(s[0]) {
        1 + digit_run_len(s.skip(1))
    } else {
        0
    }
}

/// Reads a canonical decimal number off the front of `s`: at least one
/// digit, no redundant leading zero, value within `u64`.
pub open spec fn spec_parse_number(s: Seq<u8>) -> Option<(u64, Seq<u8>)> {
    let k = digit_run_len(s);
    if k == 0 {
        None
    } else {
        let ds = s.take(k as int);
        if ds[0] == 48 && k > 1 {
            None
        } else if dec_value(ds) > u64::MAX {
            None
        } else {
            Some(((dec_value(ds) as u64), s.skip(k as int)))
        }
    }
}

// --- parsing primitives ---------------------------------------------------

/// Strips `lit` off the front of `s`.
pub open spec fn spec_take_lit(s: Seq<u8>, lit: Seq<u8>) -> Option<Seq<u8>> {
    if lit.len() <= s.len() && s.take(lit.len() as int) == lit {
        Some(s.skip(lit.len() as int))
    } else {
        None
    }
}

/// Reads one escaped string field off the front of `s`, up to and
/// including its unescaped terminating quote.  Returns the unescaped
/// field value and the remainder after the quote.
pub open spec fn spec_parse_field(s: Seq<u8>) -> Option<(Seq<u8>, Seq<u8>)>
    decreases s.len(),
{
    if s.len() == 0 {
        None
    } else if s[0] == QUOTE {
        Some((Seq::empty(), s.skip(1)))
    } else if s[0] == BACKSLASH {
        if s.len() >= 2 && (s[1] == QUOTE || s[1] == BACKSLASH) {
            match spec_parse_field(s.skip(2)) {
                Some(r) => Some((seq![s[1]] + r.0, r.1)),
                None => None,
            }
        } else {
            None
        }
    } else {
        match spec_parse_field(s.skip(1)) {
            Some(r) => Some((seq![s[0]] + r.0, r.1)),
            None => None,
        }
    }
}

// --- the record format ----------------------------------------------------

/// The one and only serialized form of a record.
pub open spec fn spec_encode(v: RecordView) -> Seq<u8> {
    spec_lit_open() + esc(v.access_key_id) + seq![QUOTE] + spec_lit_sep_secret() + esc(
        v.secret_access_key,
    ) + seq![QUOTE] + spec_lit_sep_token() + esc(v.session_token) + seq![QUOTE]
        + spec_lit_sep_expiration() + dec_digits(v.expiration as nat) + seq![CLOSE_BRACE]
}

/// What parsing an arbitrary byte string yields: the record view if the
/// bytes are exactly an encoding, nothing otherwise.
pub open spec fn spec_parse_record(s: Seq<u8>) -> Option<RecordView> {
    match spec_take_lit(s, spec_lit_open()) {
        None => None,
        Some(s1) => match spec_parse_field(s1) {
            None => None,
            Some(p1) => match spec_take_lit(p1.1, spec_lit_sep_secret()) {
                None => None,
                Some(s2) => match spec_parse_field(s2) {
                    None => None,
                    Some(p2) => match spec_take_lit(p2.1, spec_lit_sep_token()) {
                        None => None,
                        Some(s3) => match spec_parse_field(s3) {
                            None => None,
                            Some(p3) => match spec_take_lit(p3.1, spec_lit_sep_expiration()) {
                                None => None,
                                Some(s4) => match spec_parse_number(s4) {
                                    None => None,
                                    Some(pn) => if pn.1 == seq![CLOSE_BRACE] {
                                        Some(
                                            RecordView {
                                                access_key_id: p1.0,
                                                secret_access_key: p2.0,
                                                session_token: p3.0,
                                                expiration: pn.0,
                                            },
                                        )
                                    } else {
                                        None
                                    },
                                },
                            },
                        },
                    },
                },
            },
        },
    }
}

// --- encoder ---------------------------------------------------------------

fn push_all(out: &mut Vec<u8>, bytes: &Vec<u8>)
    ensures
        final(out)@ == old(out)@ + bytes@,
{
    let mut k: usize = 0;
    while k < bytes.len()
        invariant
            k <= bytes@.len(),
            out@ == old(out)@ + bytes@.take(k as int),
        decreases bytes@.len() - k,
    {
        out.push(bytes[k]);
        proof {
            assert(bytes@.take(k as int).push(bytes@[k as int]) =~= bytes@.take(k as int + 1));
            assert(old(out)@ + bytes@.take(k as int + 1) =~= (old(out)@ + bytes@.take(
                k as int,
            )).push(bytes@[k as int]));
        }
        k = k + 1;
    }
    proof {
        assert(bytes@.take(bytes@.len() as int) =~= bytes@);
    }
}

fn push_escaped(out: &mut Vec<u8>, field: &Vec<u8>)
    ensures
        final(out)@ == old(out)@ + esc(field@),
{
    let mut k: usize = 0;
    while k < field.len()
        invariant
            k <= field@.len(),
            out@ == old(out)@ + esc(field@.take(k as int)),
        decreases field@.len() - k,
    {
        let b = field[k];
        if b == QUOTE || b == BACKSLASH {
            out.push(BACKSLASH);
            out.push(b);
        } else {
            out.push(b);
        }
        proof {
            let pre = field@.take(k as int);
            let bb = field@[k as int];
            lemma_esc_app(pre, seq![bb]);
            assert(pre + seq![bb] =~= field@.take(k as int + 1));
            assert(seq![bb].skip(1) =~= Seq::<u8>::empty());
            assert(esc(seq![bb]) == esc_byte(seq![bb][0]) + esc(seq![bb].skip(1)));
            assert(esc_byte(bb) + Seq::<u8>::empty() =~= esc_byte(bb));
            assert(esc(seq![bb]) =~= esc_byte(bb));
            if b == QUOTE || b == BACKSLASH {
                assert((old(out)@ + esc(pre)).push(BACKSLASH).push(b) =~= old(out)@ + (esc(pre)
                    + esc_byte(b)));
            } else {
                assert((old(out)@ + esc(pre)).push(b) =~= old(out)@ + (esc(pre) + esc_byte(b)));
            }
        }
        k = k + 1;
    }
    proof {
        assert(field@.take(field@.len() as int) =~= field@);
    }
}

fn push_digits(out: &mut Vec<u8>, n: u64)
    ensures
        final(out)@ == old(out)@ + dec_digits(n as nat),
    decreases n,
{
    if n < 10 {
        out.push(48u8 + n as u8);
        proof {
            assert(old(out)@.push(((48 + n) as u8)) =~= old(out)@ + dec_digits(n as nat));
        }
    } else {
        push_digits(out, n / 10);
        let d: u8 = (n % 10) as u8;
        out.push(48u8 + d);
        proof {
            assert((old(out)@ + dec_digits((n / 10) as nat)).push(((48 + d) as u8)) =~= old(out)@ + (
            dec_digits((n / 10) as nat) + seq![(48 + (n as nat) % 10) as u8]));
            assert(dec_digits((n / 10) as nat) + seq![(48 + (n as nat) % 10) as u8] == dec_digits(
                n as nat,
            ));
        }
    }
}

/// Produces the exact bytes that must replace the on-disk cache content
/// when `record` is persisted.
pub fn encode_record(record: &CachedCredentialRecord) -> (out: Vec<u8>)
    ensures
        out@ == spec_encode(record@),
{
    let mut out: Vec<u8> = Vec::new();
    let l0 = lit_open();
    push_all(&mut out, &l0);
    push_escaped(&mut out, &record.access_key_id);
    out.push(QUOTE);
    let l1 = lit_sep_secret();
    push_all(&mut out, &l1);
    push_escaped(&mut out, &record.secret_access_key);
    out.push(QUOTE);
    let l2 = lit_sep_token();
    push_all(&mut out, &l2);
    push_escaped(&mut out, &record.session_token);
    out.push(QUOTE);
    let l3 = lit_sep_expiration();
    push_all(&mut out, &l3);
    push_digits(&mut out, record.expiration);
    out.push(CLOSE_BRACE);
    proof {
        assert(out@ =~= spec_encode(record@));
    }
    out
}

// --- parser ----------------------------------------------------------------

fn expect_lit(data: &Vec<u8>, i: usize, lit: &Vec<u8>) -> (r: Option<usize>)
    requires
        i <= data@.len(),
    ensures
        match r {
            Some(j) => i <= j <= data@.len() && spec_take_lit(data@.skip(i as int), lit@)
                == Some(data@.skip(j as int)),
            None => spec_take_lit(data@.skip(i as int), lit@) is None,
        },
{
    if data.len() - i < lit.len() {
        return None;
    }
    let mut k: usize = 0;
    while k < lit.len()
        invariant
            i + lit@.len() <= data@.len(),
            data@.len() <= usize::MAX,
            k <= lit@.len(),
            forall|m: int| 0 <= m < k ==> data@[i + m] == lit@[m],
        decreases lit@.len() - k,
    {
        if data[i + k] != lit[k] {
            proof {
                let s = data@.skip(i as int);
                assert(s.take(lit@.len() as int)[k as int] == data@[i + k]);
                assert(s.take(lit@.len() as int) != lit@);
            }
            return None;
        }
        k = k + 1;
    }
    proof {
        let s = data@.skip(i as int);
        assert(s.take(lit@.len() as int) =~= lit@);
        assert(s.skip(lit@.len() as int) =~= data@.skip(i + lit@.len()));
    }
    Some(i + lit.len())
}

fn parse_field(data: &Vec<u8>, i: usize) -> (r: Option<(Vec<u8>, usize)>)
    requires
        i <= data@.len(),
    ensures
        match r {
            Some(p) => p.1 <= data@.len() && spec_parse_field(data@.skip(i as int)) == Some(
                (p.0@, data@.skip(p.1 as int)),
            ),
            None => spec_parse_field(data@.skip(i as int)) is None,
        },
{
    let mut j: usize = i;
    let mut acc: Vec<u8> = Vec::new();
    loop
        invariant
            i <= j <= data@.len(),
            match spec_parse_field(data@.skip(j as int)) {
                Some(p) => spec_parse_field(data@.skip(i as int)) == Some(
                    (acc@ + p.0, p.1),
                ),
                None => spec_parse_field(data@.skip(i as int)) is None,
            },
        decreases data@.len() - j,
    {
        if j >= data.len() {
            return None;
        }
        let b = data[j];
        proof {
            assert(data@.skip(j as int)[0] == b);
        }
        if b == QUOTE {
            proof {
                let p = spec_parse_field(data@.skip(j as int)).unwrap();
                assert(p.0 =~= Seq::<u8>::empty());
                assert(acc@ + p.0 =~= acc@);
                assert(data@.skip(j as int).skip(1) =~= data@.skip(j + 1));
            }
            return Some((acc, j + 1));
        } else if b == BACKSLASH {
            if j + 1 >= data.len() {
                return None;
            }
            let c = data[j + 1];
            proof {
                assert(data@.skip(j as int)[1] == c);
            }
            if c == QUOTE || c == BACKSLASH {
                proof {
                    assert(data@.skip(j as int).skip(2) =~= data@.skip(j + 2));
                    if spec_parse_field(data@.skip(j + 2)) is Some {
                        let p2 = spec_parse_field(data@.skip(j + 2)).unwrap();
                        assert(acc@ + (seq![c] + p2.0) =~= acc@.push(c) + p2.0);
                    }
                }
                acc.push(c);
                j = j + 2;
            } else {
                return None;
            }
        } else {
            proof {
                assert(data@.skip(j as int).skip(1) =~= data@.skip(j + 1));
                if spec_parse_field(data@.skip(j + 1)) is Some {
                    let p2 = spec_parse_field(data@.skip(j + 1)).unwrap();
                    assert(acc@ + (seq![b] + p2.0) =~= acc@.push(b) + p2.0);
                }
            }
            acc.push(b);
            j = j + 1;
        }
    }
}

fn parse_number(data: &Vec<u8>, i: usize) -> (r: Option<(u64, usize)>)
    requires
        i <= data@.len(),
    ensures
        match r {
            Some(p) => p.1 <= data@.len() && spec_parse_number(data@.skip(i as int)) == Some(
                (p.0, data@.skip(p.1 as int)),
            ),
            None => spec_parse_number(data@.skip(i as int)) is None,
        },
{
    let ghost s = data@.skip(i as int);
    let mut j: usize = i;
    while j < data.len() && 48 <= data[j] && data[j] <= 57
        invariant
            i <= j <= data@.len(),
            forall|m: int| i <= m < j ==> is_digit(data@[m]),
            digit_run_len(data@.skip(i as int)) == (j - i) + digit_run_len(data@.skip(j as int)),
        decreases data@.len() - j,
    {
        proof {
            assert(data@.skip(j as int)[0] == data@[j as int]);
            assert(data@.skip(j as int).skip(1) =~= data@.skip(j + 1));
        }
        j = j + 1;
    }
    proof {
        if j < data@.len() {
            assert(data@.skip(j as int)[0] == data@[j as int]);
        }
        assert(digit_run_len(data@.skip(j as int)) == 0);
        assert(digit_run_len(s) == j - i);
    }
    if j == i {
        return None;
    }
    proof {
        assert(s.take((j - i) as int)[0] == data@[i as int]);
    }
    if data[i] == 48 && j - i > 1 {
        return None;
    }
    let ghost ds = s.take((j - i) as int);
    let mut acc: u64 = 0;
    let mut m: usize = i;
    while m < j
        invariant
            i <= m <= j <= data@.len(),
            s == data@.skip(i as int),
            forall|q: int| i <= q < j ==> is_digit(data@[q]),
            ds == s.take((j - i) as int),
            digit_run_len(s) == j - i,
            acc == dec_value(s.take((m - i) as int)),
        decreases j - m,
    {
        let d = data[m] - 48;
        proof {
            assert(is_digit(data@[m as int]));
            let pre = s.take((m - i) as int);
            let pre1 = s.take((m + 1 - i) as int);
            assert(pre1.drop_last() =~= pre);
            assert(pre1.len() == m + 1 - i);
            assert(pre1.last() == s[(m - i) as int]);
            assert(s[(m - i) as int] == data@[m as int]);
            if acc > (u64::MAX - d as u64) / 10 {
                assert forall|q: int| 0 <= q < j - i implies is_digit(s[q]) by {
                    assert(s[q] == data@[i + q]);
                }
                lemma_dec_value_monotone_extend(s, (m + 1 - i) as nat, (j - i) as nat);
                assert(dec_value(pre1) == acc * 10 + d);
                assert(acc * 10 + d > u64::MAX) by (nonlinear_arith)
                    requires
                        acc > (u64::MAX - d as u64) / 10,
                        d < 10,
                ;
            } else {
                assert(acc * 10 + d <= u64::MAX) by (nonlinear_arith)
                    requires
                        acc <= (u64::MAX - d as u64) / 10,
                        d < 10,
                ;
            }
        }
        if acc > (u64::MAX - d as u64) / 10 {
            return None;
        }
        acc = acc * 10 + d as u64;
        m = m + 1;
    }
    proof {
        assert(s.take((j - i) as int) == ds);
        assert(acc == dec_value(ds));
        assert(s.skip((j - i) as int) =~= data@.skip(j as int));
    }
    Some((acc, j))
}

/// Monotonicity of the denoted value in the digit-string length: reading
/// more digits never shrinks the number.
proof fn lemma_dec_value_monotone_extend(s: Seq<u8>, a: nat, b: nat)
    requires
        a <= b <= s.len(),
        forall|q: int| 0 <= q < b ==> is_digit(s[q]),
    ensures
        dec_value(s.take(a as int)) <= dec_value(s.take(b as int)),
    decreases b - a,
{
    if a < b {
        lemma_dec_value_monotone_extend(s, a, (b - 1) as nat);
        let pre = s.take((b - 1) as int);
        let cur = s.take(b as int);
        assert(cur.drop_last() =~= pre);
        assert(is_digit(cur.last()));
        assert(dec_value(cur) == (dec_value(pre) * 10 + (cur.last() - 48)) as nat);
        assert(dec_value(pre) * 10 >= dec_value(pre)) by (nonlinear_arith);
    }
}

/// Parses bytes read back from the cache file.  Returns the record the
/// bytes encode, or nothing when they are not an encoding.
pub fn parse_record(data: &Vec<u8>) -> (r: Option<CachedCredentialRecord>)
    ensures
        match r {
            Some(rec) => spec_parse_record(data@) == Some(rec@),
            None => spec_parse_record(data@) is None,
        },
{
    proof {
        assert(data@.skip(0) =~= data@);
    }
    let l0 = lit_open();
    let i1 = match expect_lit(data, 0, &l0) {
        Some(i) => i,
        None => { return None; },
    };
    let (access_key_id, i2) = match parse_field(data, i1) {
        Some(p) => p,
        None => { return None; },
    };
    let l1 = lit_sep_secret();
    let i3 = match expect_lit(data, i2, &l1) {
        Some(i) => i,
        None => { return None; },
    };
    let (secret_access_key, i4) = match parse_field(data, i3) {
        Some(p) => p,
        None => { return None; },
    };
    let l2 = lit_sep_token();
    let i5 = match expect_lit(data, i4, &l2) {
        Some(i) => i,
        None => { return None; },
    };
    let (session_token, i6) = match parse_field(data, i5) {
        Some(p) => p,
        None => { return None; },
    };
    let l3 = lit_sep_expiration();
    let i7 = match expect_lit(data, i6, &l3) {
        Some(i) => i,
        None => { return None; },
    };
    let (expiration, i8) = match parse_number(data, i7) {
        Some(p) => p,
        None => { return None; },
    };
    if i8 < data.len() && data.len() - i8 == 1 && data[i8] == CLOSE_BRACE {
        proof {
            assert(data@.skip(i8 as int) =~= seq![CLOSE_BRACE]);
        }
        let rec = CachedCredentialRecord {
            access_key_id,
            secret_access_key,
            session_token,
            expiration,
        };
        proof {
            assert(spec_parse_record(data@) == Some(rec@)) by {
                assert(spec_parse_record(data@).unwrap() =~= rec@);
            };
        }
        Some(rec)
    } else {
        proof {
            let rest = data@.skip(i8 as int);
            assert(rest.len() == data@.len() - i8);
            if rest.len() == 1 {
                assert(rest[0] == data@[i8 as int]);
            }
            assert(rest != seq![CLOSE_BRACE]);
        }
        None
    }
}

// --- laws ------------------------------------------------------------------

proof fn lemma_take_lit_round_trip(lit: Seq<u8>, rest: Seq<u8>)
    ensures
        spec_take_lit(lit + rest, lit) == Some(rest),
{
    assert((lit + rest).take(lit.len() as int) =~= lit);
    assert((lit + rest).skip(lit.len() as int) =~= rest);
}

proof fn lemma_parse_field_round_trip(v: Seq<u8>, rest: Seq<u8>)
    ensures
        spec_parse_field(esc(v) + seq![QUOTE] + rest) == Some((v, rest)),
    decreases v.len(),
{
    let s = esc(v) + seq![QUOTE] + rest;
    if v.len() == 0 {
        assert(esc(v) =~= Seq::<u8>::empty());
        assert(s =~= seq![QUOTE] + rest);
        assert(s[0] == QUOTE);
        assert(s.skip(1) =~= rest);
        let r = spec_parse_field(s).unwrap();
        assert(r.0 =~= v);
        assert(r.1 =~= rest);
    } else {
        let h = v[0];
        let t = v.skip(1);
        assert(esc(v) == esc_byte(h) + esc(t));
        lemma_parse_field_round_trip(t, rest);
        if h == QUOTE || h == BACKSLASH {
            assert(esc_byte(h) == seq![BACKSLASH, h]);
            assert(esc(v)[0] == BACKSLASH);
            assert(esc(v)[1] == h);
            assert(s[0] == BACKSLASH);
            assert(s[1] == h);
            assert(s.len() >= 2);
            assert(s.skip(2) =~= esc(t) + seq![QUOTE] + rest);
            let r = spec_parse_field(s).unwrap();
            assert(r.0 =~= v);
            assert(r.1 =~= rest);
        } else {
            assert(esc_byte(h) == seq![h]);
            assert(esc(v)[0] == h);
            assert(s[0] == h);
            assert(s.skip(1) =~= esc(t) + seq![QUOTE] + rest);
            let r = spec_parse_field(s).unwrap();
            assert(r.0 =~= v);
            assert(r.1 =~= rest);
        }
    }
}

proof fn lemma_dec_digits_props(n: nat)
    ensures
        dec_digits(n).len() >= 1,
        forall|q: int| 0 <= q < dec_digits(n).len() ==> is_digit(#[trigger] dec_digits(n)[q]),
        dec_digits(n)[0] == 48 ==> n == 0,
    decreases n,
{
    let ds = dec_digits(n);
    if n < 10 {
        assert(ds == seq![(48 + n) as u8]);
    } else {
        lemma_dec_digits_props(n / 10);
        let pre = dec_digits(n / 10);
        assert(ds == pre + seq![(48 + n % 10) as u8]);
        assert forall|q: int| 0 <= q < ds.len() implies is_digit(#[trigger] ds[q]) by {
            if q < pre.len() {
                assert(ds[q] == pre[q]);
            } else {
                assert(ds[q] == (48 + n % 10) as u8);
            }
        }
        assert(ds[0] == pre[0]);
        assert(n / 10 >= 1) by (nonlinear_arith)
            requires
                n >= 10,
        ;
    }
}

proof fn lemma_dec_value_digits(n: nat)
    ensures
        dec_value(dec_digits(n)) == n,
    decreases n,
{
    let ds = dec_digits(n);
    if n < 10 {
        assert(ds == seq![(48 + n) as u8]);
        assert(ds.drop_last() =~= Seq::<u8>::empty());
        assert(ds.last() == (48 + n) as u8);
        assert((48 + n) as u8 == 48 + n);
        assert(dec_value(ds) == (dec_value(ds.drop_last()) * 10 + (ds.last() - 48)) as nat);
        assert(dec_value(ds.drop_last()) == 0);
    } else {
        lemma_dec_value_digits(n / 10);
        let pre = dec_digits(n / 10);
        assert(ds == pre + seq![(48 + n % 10) as u8]);
        assert(ds.drop_last() =~= pre);
        assert(ds.last() == (48 + n % 10) as u8);
        assert((48 + n % 10) as u8 == 48 + n % 10);
        assert(dec_value(ds) == (dec_value(pre) * 10 + (n % 10)) as nat);
        assert(dec_value(pre) == n / 10);
        lemma_fundamental_div_mod(n as int, 10);
        assert(dec_value(ds) == (n / 10) * 10 + n % 10);
    }
}

proof fn lemma_digit_run_concat(ds: Seq<u8>, rest: Seq<u8>)
    requires
        forall|q: int| 0 <= q < ds.len() ==> is_digit(#[trigger] ds[q]),
        rest.len() == 0 || !is_digit(rest[0]),
    ensures
        digit_run_len(ds + rest) == ds.len(),
    decreases ds.len(),
{
    if ds.len() == 0 {
        assert(ds + rest =~= rest);
    } else {
        assert((ds + rest)[0] == ds[0]);
        assert((ds + rest).skip(1) =~= ds.skip(1) + rest);
        assert forall|q: int| 0 <= q < ds.skip(1).len() implies is_digit(
            #[trigger] ds.skip(1)[q],
        ) by {
            assert(ds.skip(1)[q] == ds[q + 1]);
        }
        lemma_digit_run_concat(ds.skip(1), rest);
    }
}

proof fn lemma_parse_number_round_trip(n: u64, rest: Seq<u8>)
    requires
        rest.len() == 0 || !is_digit(rest[0]),
    ensures
        spec_parse_number(dec_digits(n as nat) + rest) == Some((n, rest)),
{
    let dd = dec_digits(n as nat);
    let s = dd + rest;
    lemma_dec_digits_props(n as nat);
    lemma_digit_run_concat(dd, rest);
    assert(digit_run_len(s) == dd.len());
    assert(s.take(dd.len() as int) =~= dd);
    assert(s.skip(dd.len() as int) =~= rest);
    assert(s.take(dd.len() as int)[0] == dd[0]);
    if dd[0] == 48 {
        assert(n == 0);
        assert(dd == seq![48u8]);
    }
    lemma_dec_value_digits(n as nat);
}

/// Round trip: parsing an encoding yields exactly the encoded record.
pub proof fn lemma_parse_encode_round_trip(v: RecordView)
    ensures
        spec_parse_record(spec_encode(v)) == Some(v),
{
    let s = spec_encode(v);
    let r4 = seq![CLOSE_BRACE];
    let r3c = dec_digits(v.expiration as nat) + r4;
    let r3 = spec_lit_sep_expiration() + r3c;
    let r2c = esc(v.session_token) + seq![QUOTE] + r3;
    let r2 = spec_lit_sep_token() + r2c;
    let r1c = esc(v.secret_access_key) + seq![QUOTE] + r2;
    let r1 = spec_lit_sep_secret() + r1c;
    let r0c = esc(v.access_key_id) + seq![QUOTE] + r1;
    assert(s =~= spec_lit_open() + r0c);
    lemma_take_lit_round_trip(spec_lit_open(), r0c);
    lemma_parse_field_round_trip(v.access_key_id, r1);
    lemma_take_lit_round_trip(spec_lit_sep_secret(), r1c);
    lemma_parse_field_round_trip(v.secret_access_key, r2);
    lemma_take_lit_round_trip(spec_lit_sep_token(), r2c);
    lemma_parse_field_round_trip(v.session_token, r3);
    lemma_take_lit_round_trip(spec_lit_sep_expiration(), r3c);
    lemma_parse_number_round_trip(v.expiration, r4);
    assert(spec_parse_record(s).unwrap() =~= v);
}

proof fn lemma_take_lit_sound(s: Seq<u8>, lit: Seq<u8>, rest: Seq<u8>)
    requires
        spec_take_lit(s, lit) == Some(rest),
    ensures
        s == lit + rest,
{
    assert(s =~= s.take(lit.len() as int) + s.skip(lit.len() as int));
}

proof fn lemma_parse_field_sound(s: Seq<u8>, v: Seq<u8>, rest: Seq<u8>)
    requires
        spec_parse_field(s) == Some((v, rest)),
    ensures
        s == esc(v) + seq![QUOTE] + rest,
    decreases s.len(),
{
    assert(s.len() > 0);
    if s[0] == QUOTE {
        assert(v =~= Seq::<u8>::empty());
        assert(esc(v) =~= Seq::<u8>::empty());
        assert(rest =~= s.skip(1));
        assert(esc(v) + seq![QUOTE] + rest =~= s);
    } else if s[0] == BACKSLASH {
        let p = spec_parse_field(s.skip(2)).unwrap();
        assert(spec_parse_field(s.skip(2)) == Some((p.0, p.1)));
        lemma_parse_field_sound(s.skip(2), p.0, p.1);
        assert(v == seq![s[1]] + p.0);
        assert(rest == p.1);
        assert(v[0] == s[1]);
        assert(v.skip(1) =~= p.0);
        assert(esc(v) == esc_byte(v[0]) + esc(v.skip(1)));
        assert(esc_byte(s[1]) == seq![BACKSLASH, s[1]]);
        assert(esc(v) =~= seq![BACKSLASH, s[1]] + esc(p.0));
        assert(s =~= seq![s[0], s[1]] + s.skip(2));
        assert(esc(v) + seq![QUOTE] + rest =~= s);
    } else {
        let p = spec_parse_field(s.skip(1)).unwrap();
        assert(spec_parse_field(s.skip(1)) == Some((p.0, p.1)));
        lemma_parse_field_sound(s.skip(1), p.0, p.1);
        assert(v == seq![s[0]] + p.0);
        assert(rest == p.1);
        assert(v[0] == s[0]);
        assert(v.skip(1) =~= p.0);
        assert(esc(v) == esc_byte(v[0]) + esc(v.skip(1)));
        assert(esc_byte(s[0]) == seq![s[0]]);
        assert(esc(v) =~= seq![s[0]] + esc(p.0));
        assert(s =~= seq![s[0]] + s.skip(1));
        assert(esc(v) + seq![QUOTE] + rest =~= s);
    }
}

proof fn lemma_dec_value_first_nonzero(ds: Seq<u8>)
    requires
        ds.len() >= 1,
        forall|q: int| 0 <= q < ds.len() ==> is_digit(#[trigger] ds[q]),
        ds[0] != 48,
    ensures
        dec_value(ds) >= 1,
    decreases ds.len(),
{
    if ds.len() == 1 {
        assert(ds.drop_last() =~= Seq::<u8>::empty());
        assert(ds.last() == ds[0]);
    } else {
        let dl = ds.drop_last();
        assert(dl[0] == ds[0]);
        assert forall|q: int| 0 <= q < dl.len() implies is_digit(#[trigger] dl[q]) by {
            assert(dl[q] == ds[q]);
        }
        lemma_dec_value_first_nonzero(dl);
        assert(dec_value(dl) * 10 >= 10) by (nonlinear_arith)
            requires
                dec_value(dl) >= 1,
        ;
        assert(is_digit(ds.last()));
    }
}

proof fn lemma_digits_of_value(ds: Seq<u8>)
    requires
        ds.len() >= 1,
        forall|q: int| 0 <= q < ds.len() ==> is_digit(#[trigger] ds[q]),
        ds[0] != 48 || ds.len() == 1,
    ensures
        dec_digits(dec_value(ds)) == ds,
    decreases ds.len(),
{
    let v = dec_value(ds);
    if ds.len() == 1 {
        assert(ds.drop_last() =~= Seq::<u8>::empty());
        assert(ds.last() == ds[0]);
        assert(dec_value(Seq::<u8>::empty()) == 0);
        assert(v == (dec_value(ds.drop_last()) * 10 + (ds.last() - 48)) as nat);
        assert(v == (ds[0] - 48) as nat);
        assert(dec_digits(v) =~= ds);
    } else {
        let dl = ds.drop_last();
        let d = ds.last();
        assert(dl[0] == ds[0]);
        assert forall|q: int| 0 <= q < dl.len() implies is_digit(#[trigger] dl[q]) by {
            assert(dl[q] == ds[q]);
        }
        assert(is_digit(d));
        lemma_dec_value_first_nonzero(dl);
        let vp = dec_value(dl);
        assert(v == (vp * 10 + (d - 48)) as nat);
        assert(vp * 10 >= 10) by (nonlinear_arith)
            requires
                vp >= 1,
        ;
        lemma_fundamental_div_mod_converse(v as int, 10, vp as int, (d - 48) as int);
        lemma_digits_of_value(dl);
        assert(dec_digits(v) == dec_digits(v / 10) + seq![(48 + v % 10) as u8]);
        assert(dec_digits(v / 10) == dl);
        assert((48 + v % 10) as u8 == d);
        assert(dl + seq![d] =~= ds);
    }
}

proof fn lemma_digit_run_prefix_digits(s: Seq<u8>)
    ensures
        digit_run_len(s) <= s.len(),
        forall|q: int| 0 <= q < digit_run_len(s) ==> is_digit(#[trigger] s[q]),
    decreases s.len(),
{
    if s.len() > 0 && is_digit(s[0]) {
        lemma_digit_run_prefix_digits(s.skip(1));
        assert forall|q: int| 0 <= q < digit_run_len(s) implies is_digit(#[trigger] s[q]) by {
            if q > 0 {
                assert(s.skip(1)[q - 1] == s[q]);
                assert(is_digit(s.skip(1)[q - 1]));
            }
        }
    }
}

proof fn lemma_parse_number_sound(s: Seq<u8>, n: u64, rest: Seq<u8>)
    requires
        spec_parse_number(s) == Some((n, rest)),
    ensures
        s == dec_digits(n as nat) + rest,
{
    let k = digit_run_len(s);
    lemma_digit_run_prefix_digits(s);
    let ds = s.take(k as int);
    assert forall|q: int| 0 <= q < ds.len() implies is_digit(#[trigger] ds[q]) by {
        assert(ds[q] == s[q]);
    }
    lemma_digits_of_value(ds);
    assert(dec_digits(n as nat) == ds);
    assert(s =~= s.take(k as int) + s.skip(k as int));
}

/// Soundness: the parser accepts nothing but encodings.  Together with
/// the round trip this makes the encoding canonical: any content that is
/// not byte-for-byte an encoding is reported as unparseable.
#[verifier::rlimit(100)]
pub proof fn lemma_parse_record_sound(s: Seq<u8>, v: RecordView)
    requires
        spec_parse_record(s) == Some(v),
    ensures
        s == spec_encode(v),
{
    let s1 = spec_take_lit(s, spec_lit_open()).unwrap();
    lemma_take_lit_sound(s, spec_lit_open(), s1);
    let p1 = spec_parse_field(s1).unwrap();
    assert(spec_parse_field(s1) == Some((p1.0, p1.1)));
    lemma_parse_field_sound(s1, p1.0, p1.1);
    let s2 = spec_take_lit(p1.1, spec_lit_sep_secret()).unwrap();
    lemma_take_lit_sound(p1.1, spec_lit_sep_secret(), s2);
    let p2 = spec_parse_field(s2).unwrap();
    assert(spec_parse_field(s2) == Some((p2.0, p2.1)));
    lemma_parse_field_sound(s2, p2.0, p2.1);
    let s3 = spec_take_lit(p2.1, spec_lit_sep_token()).unwrap();
    lemma_take_lit_sound(p2.1, spec_lit_sep_token(), s3);
    let p3 = spec_parse_field(s3).unwrap();
    assert(spec_parse_field(s3) == Some((p3.0, p3.1)));
    lemma_parse_field_sound(s3, p3.0, p3.1);
    let s4 = spec_take_lit(p3.1, spec_lit_sep_expiration()).unwrap();
    lemma_take_lit_sound(p3.1, spec_lit_sep_expiration(), s4);
    let pn = spec_parse_number(s4).unwrap();
    assert(spec_parse_number(s4) == Some((pn.0, pn.1)));
    lemma_parse_number_sound(s4, pn.0, pn.1);
    assert(pn.1 == seq![CLOSE_BRACE]);
    assert(v.access_key_id == p1.0);
    assert(v.secret_access_key == p2.0);
    assert(v.session_token == p3.0);
    assert(v.expiration == pn.0);
    assert(s =~= spec_encode(v));
}

} // verus!

