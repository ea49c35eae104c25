//! PAX extended-header payloads carrying extended attributes.
//!
//! Each attribute of an archived entry is serialized as
//! `"<len> SCHILY.xattr.<key>=<value>\n"`, where `<len>` is the decimal
//! length of the whole record, including the digits of `<len>` itself.
//! The digit count is the fixed point of "digit count of the total record
//! length including itself".

use vstd::arithmetic::div_mod::lemma_fundamental_div_mod;
use vstd::prelude::*;

verus! {

/// Ten to the power `e`.
pub open spec fn pow10(e: nat) -> nat
    decreases e,
{
    if e == 0 {
        1
    } else {
        10 * pow10((e - 1) as nat)
    }
}

/// The number of decimal digits of `n`.
pub open spec fn dec_len(n: nat) -> nat
    decreases n,
{
    if n < 10 {
        1
    } else {
        1 + dec_len(n / 10)
    }
}

/// The decimal encoding of `n` as ASCII digits, most significant first.
pub open spec fn dec_bytes(n: nat) -> Seq<u8>
    decreases n,
{
    if n < 10 {
        seq![(n + 0x30) as u8]
    } else {
        dec_bytes(n / 10).push((n % 10 + 0x30) as u8)
    }
}

pub proof fn lemma_dec_bytes_len(n: nat)
    ensures
        dec_bytes(n).len() == dec_len(n),
    decreases n,
{
    if n >= 10 {
        lemma_dec_bytes_len(n / 10);
    }
}

/// Every byte of a decimal encoding is an ASCII digit.
pub proof fn lemma_dec_bytes_digits(n: nat)
    ensures
        forall|i: int| 0 <= i < dec_bytes(n).len() ==> 0x30 <= #[trigger] dec_bytes(n)[i] <= 0x39,
    decreases n,
{
    if n < 10 {
        assert(dec_bytes(n)[0] == (n + 0x30) as u8);
    } else {
        lemma_dec_bytes_digits(n / 10);
        let prefix = dec_bytes(n / 10);
        let last = (n % 10 + 0x30) as u8;
        assert(dec_bytes(n) == prefix.push(last));
        assert(forall|i: int|
            0 <= i < prefix.len() ==> #[trigger] prefix.push(last)[i] == prefix[i]);
        assert(prefix.push(last)[prefix.len() as int] == last);
    }
}

/// `dec_len` is determined by the magnitude of `n`.
pub proof fn lemma_dec_len_of_bounded(n: nat, l: nat)
    requires
        l >= 1,
        n < pow10(l),
        l > 1 ==> n >= pow10((l - 1) as nat),
    ensures
        dec_len(n) == l,
    decreases l,
{
    reveal_with_fuel(pow10, 3);
    if l > 1 {
        lemma_fundamental_div_mod(n as int, 10);
        let k = pow10((l - 1) as nat);
        assert(pow10(l) == 10 * k);
        assert(k >= 10) by {
            lemma_pow10_at_least_ten((l - 1) as nat);
        }
        assert(n >= 10);
        assert(n / 10 < k);
        if l > 2 {
            assert(pow10((l - 1) as nat) == 10 * pow10((l - 2) as nat));
            assert(n / 10 >= pow10((l - 2) as nat));
        }
        lemma_dec_len_of_bounded(n / 10, (l - 1) as nat);
    }
}

proof fn lemma_pow10_18()
    ensures
        pow10(18) == 1000000000000000000,
{
    reveal_with_fuel(pow10, 20);
}

proof fn lemma_pow10_at_least_ten(e: nat)
    ensures
        e >= 1 ==> pow10(e) >= 10,
    decreases e,
{
    reveal_with_fuel(pow10, 3);
    if e > 1 {
        lemma_pow10_at_least_ten((e - 1) as nat);
    }
}

pub proof fn lemma_pow10_increases(a: nat, b: nat)
    requires
        a <= b,
    ensures
        pow10(a) <= pow10(b),
    decreases b,
{
    if a < b {
        lemma_pow10_increases(a, (b - 1) as nat);
    }
}

/// The fixed-point search for the digit count of a record length: the least
/// `l >= start` such that `data_len + l` has at most `l` digits.
pub open spec fn len_len_from(data_len: nat, start: nat, fuel: nat) -> nat
    decreases fuel,
{
    if fuel == 0 {
        start
    } else if data_len + start < pow10(start) {
        start
    } else {
        len_len_from(data_len, start + 1, (fuel - 1) as nat)
    }
}

/// The digit count of the length field of a record whose length without the
/// field is `data_len`.
pub open spec fn pax_len_len(data_len: nat) -> nat {
    len_len_from(data_len, 1, 18)
}

/// The length of a whole record, including its own length field.
pub open spec fn pax_total_len(data_len: nat) -> nat {
    data_len + pax_len_len(data_len)
}

proof fn lemma_len_len_from(data_len: nat, start: nat, fuel: nat)
    requires
        1 <= start,
        fuel >= 1,
        data_len + (start + fuel - 1) < pow10((start + fuel - 1) as nat),
    ensures
        ({
            let l = len_len_from(data_len, start, fuel);
            &&& start <= l <= start + fuel - 1
            &&& data_len + l < pow10(l)
            &&& forall|m: nat| start <= m < l ==> data_len + m >= pow10(m)
        }),
    decreases fuel,
{
    if data_len + start < pow10(start) {
    } else {
        assert(fuel >= 2);
        lemma_len_len_from(data_len, start + 1, (fuel - 1) as nat);
    }
}

/// The fixed point exists and is unique: the record length has exactly
/// `pax_len_len(data_len)` digits.
pub proof fn lemma_pax_len_len(data_len: nat)
    requires
        data_len < 0x10000000,
    ensures
        1 <= pax_len_len(data_len) <= 18,
        dec_len(pax_total_len(data_len)) == pax_len_len(data_len),
    decreases data_len,
{
    lemma_pow10_18();
    lemma_len_len_from(data_len, 1, 18);
    let l = pax_len_len(data_len);
    if l > 1 {
        assert(data_len + (l - 1) >= pow10((l - 1) as nat));
    }
    lemma_dec_len_of_bounded((data_len + l) as nat, l);
}

/// The thirteen bytes of `"SCHILY.xattr."`.
pub open spec fn schily_prefix() -> Seq<u8> {
    seq![83u8, 67u8, 72u8, 73u8, 76u8, 89u8, 46u8, 120u8, 97u8, 116u8, 116u8, 114u8, 46u8]
}

/// One serialized attribute record: `"<len> SCHILY.xattr.<key>=<value>\n"`.
pub open spec fn pax_record_spec(key: Seq<u8>, value: Seq<u8>) -> Seq<u8> {
    let data_len = 13 + key.len() + 1 + value.len() + 2;
    dec_bytes(pax_total_len(data_len)) + seq![32u8] + schily_prefix() + key + seq![61u8] + value
        + seq![10u8]
}

/// An extended attribute of a filesystem entry.
pub struct Xattr {
    /// The attribute name, without any trailing NUL.
    pub key: Vec<u8>,
    /// The attribute value.
    pub value: Vec<u8>,
}

impl Xattr {
    pub open spec fn key_seq(&self) -> Seq<u8> {
        self.key@
    }

    pub open spec fn value_seq(&self) -> Seq<u8> {
        self.value@
    }
}

/// The serialized payload for a list of attributes: the records in order.
pub open spec fn pax_data_spec(xattrs: Seq<(Seq<u8>, Seq<u8>)>) -> Seq<u8>
    decreases xattrs.len(),
{
    if xattrs.len() == 0 {
        Seq::<u8>::empty()
    } else {
        pax_data_spec(xattrs.drop_last()) + pax_record_spec(
            xattrs.last().0,
            xattrs.last().1,
        )
    }
}

/// The attribute pairs a list of `Xattr` stands for.
pub open spec fn xattr_pairs(xattrs: Seq<Xattr>) -> Seq<(Seq<u8>, Seq<u8>)> {
    xattrs.map(|i: int, x: Xattr| (x.key_seq(), x.value_seq()))
}

fn pow10_u64(e: u64) -> (r: u64)
    requires
        e <= 18,
    ensures
        r == pow10(e as nat),
{
    let mut r: u64 = 1;
    let mut i: u64 = 0;
    while i < e
        invariant
            i <= e <= 18,
            r == pow10(i as nat),
            r <= 1000000000000000000,
        decreases e - i,
    {
        assert(pow10((i + 1) as nat) == 10 * pow10(i as nat));
        proof { lemma_pow10_18(); }
        assert(pow10((i + 1) as nat) <= pow10(18)) by {
            lemma_pow10_increases((i + 1) as nat, 18);
        }
        r = r * 10;
        i = i + 1;
    }
    r
}

/// Append the decimal digits of `n` to `out`.
pub fn push_dec(out: &mut Vec<u8>, n: u64)
    ensures
        final(out)@ == old(out)@ + dec_bytes(n as nat),
    decreases n,
{
    if n >= 10 {
        push_dec(out, n / 10);
    }
    out.push((n % 10) as u8 + 0x30);
    assert(final(out)@ =~= old(out)@ + dec_bytes(n as nat));
}

/// Compute the digit count of the length field: the least `l >= 1` with
/// `data_len + l < pow10(l)`.
fn len_len_exec(data_len: u64) -> (r: u64)
    requires
        data_len < 0x10000000,
    ensures
        r == pax_len_len(data_len as nat),
        1 <= r <= 18,
{
    proof {
        lemma_pow10_18();
        lemma_len_len_from(data_len as nat, 1, 18);
    }
    let ghost target = pax_len_len(data_len as nat);
    let mut l: u64 = 1;
    while data_len + l >= pow10_u64(l)
        invariant
            data_len < 0x10000000,
            1 <= l <= target,
            target == pax_len_len(data_len as nat),
            target <= 18,
            forall|m: nat| 1 <= m < l ==> data_len + m >= pow10(m),
            data_len + target < pow10(target as nat),
        decreases target - l,
    {
        proof {
            if l == target {
                assert(data_len + target < pow10(target as nat));
            }
        }
        l = l + 1;
    }
    proof {
        if l < target {
            assert(data_len + l >= pow10(l as nat));
        }
    }
    l
}

/// Append the thirteen bytes of `"SCHILY.xattr."` to `out`.
fn push_schily(out: &mut Vec<u8>)
    ensures
        final(out)@ == old(out)@ + schily_prefix(),
{
    out.push(83);
    out.push(67);
    out.push(72);
    out.push(73);
    out.push(76);
    out.push(89);
    out.push(46);
    out.push(120);
    out.push(97);
    out.push(116);
    out.push(116);
    out.push(114);
    out.push(46);
    assert(final(out)@ =~= old(out)@ + schily_prefix());
}

/// Append one serialized attribute record to `out`.
pub fn push_pax_record(out: &mut Vec<u8>, key: &Vec<u8>, value: &Vec<u8>)
    requires
        key@.len() + value@.len() < 0x1000000,
    ensures
        final(out)@ == old(out)@ + pax_record_spec(key@, value@),
{
    let data_len: u64 = 13 + key.len() as u64 + 1 + value.len() as u64 + 2;
    let len_len = len_len_exec(data_len);
    push_dec(out, data_len + len_len);
    out.push(32);
    push_schily(out);
    out.extend_from_slice(key.as_slice());
    out.push(61);
    out.extend_from_slice(value.as_slice());
    out.push(10);
    assert(final(out)@ =~= old(out)@ + pax_record_spec(key@, value@));
}

/// The serialized PAX payload for a list of extended attributes, one record
/// for each attribute, in order.  An empty list yields an empty payload.
pub fn pax_data(xattrs: &Vec<Xattr>) -> (r: Vec<u8>)
    requires
        forall|i: int|
            0 <= i < xattrs@.len() ==> (#[trigger] xattrs@[i]).key@.len() + xattrs@[i].value@.len()
                < 0x1000000,
        xattrs@.len() < 0x100,
    ensures
        r@ == pax_data_spec(xattr_pairs(xattrs@)),
        r@.len() == 0 <==> xattrs@.len() == 0,
{
    let mut out: Vec<u8> = Vec::new();
    let mut i: usize = 0;
    proof {
        assert(xattr_pairs(xattrs@.subrange(0, 0)) =~= Seq::<(Seq<u8>, Seq<u8>)>::empty());
    }
    while i < xattrs.len()
        invariant
            i <= xattrs@.len() < 0x100,
            forall|j: int|
                0 <= j < xattrs@.len() ==> (#[trigger] xattrs@[j]).key@.len()
                    + xattrs@[j].value@.len() < 0x1000000,
            out@ == pax_data_spec(xattr_pairs(xattrs@.subrange(0, i as int))),
            i > 0 ==> out@.len() > 0,
        decreases xattrs@.len() - i,
    {
        proof {
            assert(xattr_pairs(xattrs@.subrange(0, i + 1 as int)).drop_last() =~= xattr_pairs(
                xattrs@.subrange(0, i as int),
            ));
        }
        push_pax_record(&mut out, &xattrs[i].key, &xattrs[i].value);
        i = i + 1;
    }
    proof {
        assert(xattrs@.subrange(0, xattrs@.len() as int) =~= xattrs@);
    }
    out
}

/// A record's length, including its own length field, is `pax_total_len` of
/// its length without the field; the length field has exactly as many digits
/// as the fixed point demands.
pub proof fn lemma_pax_record_len(key: Seq<u8>, value: Seq<u8>)
    requires
        key.len() + value.len() < 0x1000000,
    ensures
        pax_record_spec(key, value).len() == pax_total_len(13 + key.len() + 1 + value.len() + 2),
        pax_record_spec(key, value).len() < 0x1000100,
{
    let data_len = 13 + key.len() + 1 + value.len() + 2;
    lemma_pax_len_len(data_len);
    lemma_dec_bytes_len(pax_total_len(data_len));
}


/// An ASCII decimal digit.
pub open spec fn is_digit(b: u8) -> bool {
    0x30 <= b <= 0x39
}

/// The number of leading ASCII digits of `data`.
pub open spec fn digits_len(data: Seq<u8>) -> nat
    decreases data.len(),
{
    if data.len() == 0 || !is_digit(data[0]) {
        0
    } else {
        1 + digits_len(data.drop_first())
    }
}

/// The value of a run of ASCII digits.
pub open spec fn dec_value(digits: Seq<u8>) -> int
    decreases digits.len(),
{
    if digits.len() == 0 {
        0
    } else {
        dec_value(digits.drop_last()) * 10 + (digits.last() - 0x30)
    }
}

/// The index of the first `=` in `data`, or its length if there is none.
pub open spec fn find_eq(data: Seq<u8>) -> int
    decreases data.len(),
{
    if data.len() == 0 {
        0
    } else if data[0] == 61 {
        0
    } else {
        1 + find_eq(data.drop_first())
    }
}

/// Reading back the decimal encoding gives the number.
pub proof fn lemma_dec_value_of_dec_bytes(n: nat)
    ensures
        dec_value(dec_bytes(n)) == n,
    decreases n,
{
    if n < 10 {
        assert(dec_bytes(n).drop_last() =~= Seq::<u8>::empty());
        assert(dec_bytes(n).last() == (n + 0x30) as u8);
        assert((n + 0x30) as u8 == n + 0x30);
        assert(dec_value(dec_bytes(n)) == dec_value(dec_bytes(n).drop_last()) * 10 + (dec_bytes(
            n,
        ).last() - 0x30));
        assert(dec_value(Seq::<u8>::empty()) == 0);
    } else {
        lemma_dec_value_of_dec_bytes(n / 10);
        lemma_fundamental_div_mod(n as int, 10);
        assert(dec_bytes(n).drop_last() =~= dec_bytes(n / 10));
        let d = (n % 10 + 0x30) as u8;
        assert(d == n % 10 + 0x30);
        assert(dec_bytes(n).last() == d);
        assert(dec_value(dec_bytes(n)) == dec_value(dec_bytes(n).drop_last()) * 10 + (dec_bytes(
            n,
        ).last() - 0x30));
        assert(dec_value(dec_bytes(n)) == dec_value(dec_bytes(n / 10)) * 10 + (d - 0x30));
        assert(dec_value(dec_bytes(n)) == (n / 10) * 10 + n % 10);
        assert((n / 10) * 10 + n % 10 == n);
    }
}

/// The digit run of a stream opening with a decimal encoding followed by a
/// non-digit is exactly that encoding.
proof fn lemma_digits_len_prefix(a: Seq<u8>, b: Seq<u8>)
    requires
        forall|i: int| 0 <= i < a.len() ==> is_digit(#[trigger] a[i]),
        b.len() > 0,
        !is_digit(b[0]),
    ensures
        digits_len(a + b) == a.len(),
    decreases a.len(),
{
    if a.len() == 0 {
        assert(a + b =~= b);
    } else {
        assert((a + b).drop_first() =~= a.drop_first() + b);
        lemma_digits_len_prefix(a.drop_first(), b);
    }
}

/// The first `=` of a stream opening with an `=`-free run is right after it.
proof fn lemma_find_eq_prefix(a: Seq<u8>, b: Seq<u8>)
    requires
        forall|i: int| 0 <= i < a.len() ==> #[trigger] a[i] != 61,
        b.len() > 0,
        b[0] == 61,
    ensures
        find_eq(a + b) == a.len(),
    decreases a.len(),
{
    if a.len() == 0 {
        assert(a + b =~= b);
    } else {
        assert((a + b).drop_first() =~= a.drop_first() + b);
        lemma_find_eq_prefix(a.drop_first(), b);
    }
}

/// One record read back from the head of a stream: its key/value pair and
/// its length, or nothing where no record starts the stream.
pub open spec fn parse_pax_record(data: Seq<u8>) -> Option<((Seq<u8>, Seq<u8>), int)> {
    let dl = digits_len(data) as int;
    let total = dec_value(data.take(dl));
    if dl == 0 || total > data.len() || total < dl + 16 {
        None
    } else if data[dl] != 32 {
        None
    } else if data.subrange(dl + 1, dl + 14) != schily_prefix() {
        None
    } else {
        let body = data.subrange(dl + 14, total);
        let e = find_eq(body);
        if e >= body.len() || body.last() != 10 {
            None
        } else {
            Some(((body.take(e), body.subrange(e + 1, body.len() - 1)), total))
        }
    }
}

/// The key/value pairs read back from a whole payload, or nothing where it
/// is not a sequence of records.
pub open spec fn parse_pax_data(data: Seq<u8>) -> Option<Seq<(Seq<u8>, Seq<u8>)>>
    decreases data.len(),
{
    if data.len() == 0 {
        Some(Seq::<(Seq<u8>, Seq<u8>)>::empty())
    } else {
        match parse_pax_record(data) {
            None => None,
            Some(parsed) => {
                if parsed.1 <= 0 || parsed.1 > data.len() {
                    None
                } else {
                    match parse_pax_data(data.skip(parsed.1)) {
                        None => None,
                        Some(rest) => Some(seq![parsed.0] + rest),
                    }
                }
            },
        }
    }
}

/// A serialized record at the head of a stream reads back as the pair it
/// was built from, for a key free of `=`.
#[verifier::rlimit(100)]
proof fn lemma_pax_record_round_trip(key: Seq<u8>, value: Seq<u8>, rest: Seq<u8>)
    requires
        key.len() + value.len() < 0x1000000,
        forall|i: int| 0 <= i < key.len() ==> #[trigger] key[i] != 61,
    ensures
        parse_pax_record(pax_record_spec(key, value) + rest) == Some(
            ((key, value), pax_record_spec(key, value).len() as int),
        ),
{
    let data_len = 13 + key.len() + 1 + value.len() + 2;
    let total = pax_total_len(data_len);
    let dl = pax_len_len(data_len) as int;
    lemma_pax_len_len(data_len);
    lemma_dec_bytes_len(total);
    lemma_dec_bytes_digits(total);
    lemma_dec_value_of_dec_bytes(total);
    lemma_pax_record_len(key, value);
    let r = pax_record_spec(key, value);
    let data = r + rest;
    let tail = seq![32u8] + schily_prefix() + key + seq![61u8] + value + seq![10u8];
    assert(data =~= dec_bytes(total) + (tail + rest));
    lemma_digits_len_prefix(dec_bytes(total), tail + rest);
    assert(digits_len(data) == dl);
    assert(data.take(dl) =~= dec_bytes(total));
    assert(total >= dl + 16);
    assert(data[dl] == 32);
    assert(data.subrange(dl + 1, dl + 14) =~= schily_prefix());
    let body = data.subrange(dl + 14, total as int);
    assert(body =~= key + (seq![61u8] + value + seq![10u8]));
    lemma_find_eq_prefix(key, seq![61u8] + value + seq![10u8]);
    assert(find_eq(body) == key.len());
    assert(body.last() == 10);
    assert(body.take(key.len() as int) =~= key);
    assert(body.subrange(key.len() as int + 1, body.len() as int - 1) =~= value);
}

/// Unfolding a payload from the left: the first record, then the rest.
proof fn lemma_pax_data_left(xs: Seq<(Seq<u8>, Seq<u8>)>)
    requires
        xs.len() > 0,
    ensures
        pax_data_spec(xs) == pax_record_spec(xs[0].0, xs[0].1) + pax_data_spec(xs.drop_first()),
    decreases xs.len(),
{
    if xs.len() == 1 {
        assert(xs.drop_last() =~= Seq::<(Seq<u8>, Seq<u8>)>::empty());
        assert(xs.drop_first() =~= Seq::<(Seq<u8>, Seq<u8>)>::empty());
        assert(pax_data_spec(Seq::<(Seq<u8>, Seq<u8>)>::empty()) == Seq::<u8>::empty());
        assert(xs.last() == xs[0]);
        assert(pax_data_spec(xs) == Seq::<u8>::empty() + pax_record_spec(xs[0].0, xs[0].1));
        assert(pax_data_spec(xs) =~= pax_record_spec(xs[0].0, xs[0].1));
    } else {
        lemma_pax_data_left(xs.drop_last());
        assert(xs.drop_last().drop_first() =~= xs.drop_first().drop_last());
        assert(xs.drop_first().last() == xs.last());
        assert(pax_data_spec(xs) == pax_data_spec(xs.drop_last()) + pax_record_spec(
            xs.last().0,
            xs.last().1,
        ));
        assert(pax_data_spec(xs.drop_first()) == pax_data_spec(xs.drop_first().drop_last())
            + pax_record_spec(xs.last().0, xs.last().1));
        assert(pax_data_spec(xs) =~= pax_record_spec(xs[0].0, xs[0].1) + pax_data_spec(
            xs.drop_first(),
        ));
    }
}

/// Round trip: a payload built from attribute pairs whose keys are free of
/// `=` reads back as exactly those pairs, in order.
#[verifier::rlimit(100)]
pub proof fn lemma_pax_data_round_trip(xs: Seq<(Seq<u8>, Seq<u8>)>)
    requires
        forall|i: int|
            0 <= i < xs.len() ==> (#[trigger] xs[i]).0.len() + xs[i].1.len() < 0x1000000,
        forall|i: int, j: int|
            0 <= i < xs.len() && 0 <= j < xs[i].0.len() ==> (#[trigger] xs[i].0[j]) != 61,
    ensures
        parse_pax_data(pax_data_spec(xs)) == Some(xs),
    decreases xs.len(),
{
    if xs.len() == 0 {
        assert(parse_pax_data(pax_data_spec(xs)) == Some(Seq::<(Seq<u8>, Seq<u8>)>::empty()));
        assert(Seq::<(Seq<u8>, Seq<u8>)>::empty() =~= xs);
    } else {
        let key = xs[0].0;
        let value = xs[0].1;
        let r = pax_record_spec(key, value);
        lemma_pax_data_left(xs);
        let data = pax_data_spec(xs);
        assert(data == r + pax_data_spec(xs.drop_first()));
        assert(forall|j: int| 0 <= j < key.len() ==> (#[trigger] key[j]) != 61) by {
            assert(forall|j: int|
                0 <= j < xs[0].0.len() ==> (#[trigger] xs[0].0[j]) != 61);
        }
        lemma_pax_record_round_trip(key, value, pax_data_spec(xs.drop_first()));
        lemma_pax_record_len(key, value);
        assert(data.len() > 0);
        assert(data.skip(r.len() as int) =~= pax_data_spec(xs.drop_first()));
        assert(forall|i: int|
            0 <= i < xs.drop_first().len() ==> (#[trigger] xs.drop_first()[i]).0.len()
                + xs.drop_first()[i].1.len() < 0x1000000);
        assert(forall|i: int, j: int|
            0 <= i < xs.drop_first().len() && 0 <= j < xs.drop_first()[i].0.len() ==> (
            #[trigger] xs.drop_first()[i].0[j]) != 61);
        lemma_pax_data_round_trip(xs.drop_first());
        assert(seq![(key, value)] + xs.drop_first() =~= xs);
    }
}

} // verus!
