//! Sub-uid/gid range handling for the rootless wrapper: parsing
//! `/etc/subuid`-style content and computing the id-mapping arguments.

use vstd::prelude::*;
use vstd::string::StringExecFns;
use vstd::string::StringSliceAdditionalSpecFns;

verus! {

/// A range of sub ids granted to a user or group.
#[derive(Debug, Clone, Copy, PartialEq, Eq, Structural)]
pub struct SubIdRange {
    /// The first id in the range.
    pub start: usize,
    /// The number of ids in the range.
    pub count: usize,
}

/// The first position at or after `from` holding byte `b`, or the length.
pub open spec fn find_byte(bs: Seq<u8>, from: int, b: u8) -> int
    decreases bs.len() - from,
{
    if from < 0 || from >= bs.len() {
        bs.len() as int
    } else if bs[from] == b {
        from
    } else {
        find_byte(bs, from + 1, b)
    }
}

pub proof fn lemma_find_byte(bs: Seq<u8>, from: int, b: u8)
    requires
        0 <= from <= bs.len(),
    ensures
        from <= find_byte(bs, from, b) <= bs.len(),
        find_byte(bs, from, b) < bs.len() ==> bs[find_byte(bs, from, b)] == b,
        forall|i: int| from <= i < find_byte(bs, from, b) ==> bs[i] != b,
    decreases bs.len() - from,
{
    if from < bs.len() && bs[from] != b {
        lemma_find_byte(bs, from + 1, b);
    }
}

/// A position at or after `from` that holds `b`, preceded by no other, is
/// where the search lands.
pub proof fn lemma_find_byte_unique(bs: Seq<u8>, from: int, b: u8, e: int)
    requires
        0 <= from <= e <= bs.len(),
        e < bs.len() ==> bs[e] == b,
        forall|i: int| from <= i < e ==> bs[i] != b,
    ensures
        find_byte(bs, from, b) == e,
{
    lemma_find_byte(bs, from, b);
    let f = find_byte(bs, from, b);
    if f < e {
        assert(bs[f] == b);
    }
    if e < f {
        assert(bs[e] != b);
    }
}

/// An ASCII decimal digit byte.
pub open spec fn digit_byte(b: u8) -> bool {
    0x30 <= b <= 0x39
}

/// Whether every byte of the run is a digit.
pub open spec fn all_digit_bytes(bs: Seq<u8>) -> bool {
    forall|i: int| 0 <= i < bs.len() ==> digit_byte(#[trigger] bs[i])
}

/// The value of a digit run.
pub open spec fn digits_val(bs: Seq<u8>) -> int
    decreases bs.len(),
{
    if bs.len() == 0 {
        0
    } else {
        digits_val(bs.drop_last()) * 10 + (bs.last() - 0x30)
    }
}

proof fn lemma_digits_val_nonneg(bs: Seq<u8>)
    requires
        all_digit_bytes(bs),
    ensures
        digits_val(bs) >= 0,
    decreases bs.len(),
{
    if bs.len() > 0 {
        assert(all_digit_bytes(bs.drop_last())) by {
            assert(forall|i: int| 0 <= i < bs.len() - 1 ==> bs.drop_last()[i] == bs[i]);
        }
        lemma_digits_val_nonneg(bs.drop_last());
    }
}

/// A digit run's value never shrinks as the run grows.
proof fn lemma_digits_val_mono(bs: Seq<u8>, i: int)
    requires
        all_digit_bytes(bs),
        0 <= i <= bs.len(),
    ensures
        digits_val(bs) >= digits_val(bs.take(i)),
    decreases bs.len() - i,
{
    if i < bs.len() {
        lemma_digits_val_mono(bs, i + 1);
        assert(bs.take(i + 1).drop_last() =~= bs.take(i));
        assert(all_digit_bytes(bs.take(i))) by {
            assert(forall|j: int| 0 <= j < i ==> bs.take(i)[j] == bs[j]);
        }
        lemma_digits_val_nonneg(bs.take(i));
        assert(digits_val(bs.take(i + 1)) == digits_val(bs.take(i)) * 10 + (bs[i] - 0x30));
    } else {
        assert(bs.take(i) =~= bs);
    }
}

/// What `str::parse::<usize>` accepts of a byte run: an optional leading
/// `+`, then at least one digit, with a value that fits.
pub open spec fn parse_usize_spec(bs: Seq<u8>) -> Option<usize> {
    let digits = if bs.len() > 0 && bs[0] == 43 {
        bs.drop_first()
    } else {
        bs
    };
    if digits.len() == 0 || !all_digit_bytes(digits) {
        None
    } else if digits_val(digits) > usize::MAX {
        None
    } else {
        Some(digits_val(digits) as usize)
    }
}

/// Parse the bytes of `content` between `lo` and `hi` as a usize.
fn parse_usize_bytes(content: &[u8], lo: usize, hi: usize) -> (r: Option<usize>)
    requires
        lo <= hi <= content@.len(),
    ensures
        r == parse_usize_spec(content@.subrange(lo as int, hi as int)),
{
    let ghost bs = content@.subrange(lo as int, hi as int);
    let mut i = lo;
    proof {
        if lo < hi {
            assert(bs[0] == content@[lo as int]);
        }
    }
    if i < hi && content[i] == 43 {
        i = i + 1;
    }
    let ghost digits = content@.subrange(i as int, hi as int);
    proof {
        if lo < hi && bs[0] == 43 {
            assert(digits =~= bs.drop_first());
        } else {
            assert(digits =~= bs);
        }
    }
    if i == hi {
        return None;
    }
    let ghost d0 = i as int;
    let mut acc: usize = 0;
    while i < hi
        invariant
            0 <= lo as int <= d0 <= i as int <= hi <= content@.len(),
            d0 < hi,
            bs == content@.subrange(lo as int, hi as int),
            digits == content@.subrange(d0, hi as int),
            digits == (if bs.len() > 0 && bs[0] == 43 {
                bs.drop_first()
            } else {
                bs
            }),
            all_digit_bytes(digits.take(i - d0)),
            acc == digits_val(digits.take(i - d0)),
        decreases hi - i,
    {
        let b = content[i];
        proof {
            assert(digits[i - d0] == content@[i as int]);
        }
        if b < 0x30 || b > 0x39 {
            proof {
                assert(!digit_byte(digits[i - d0]));
            }
            return None;
        }
        let d = (b - 0x30) as usize;
        let next = match acc.checked_mul(10) {
            Option::Some(m) => m.checked_add(d),
            Option::None => None,
        };
        proof {
            assert(digits.take(i - d0 + 1).drop_last() =~= digits.take(i - d0));
            assert(all_digit_bytes(digits.take(i - d0 + 1))) by {
                assert(forall|j: int|
                    0 <= j < i - d0 + 1 ==> digits.take(i - d0 + 1)[j] == digits[j]);
            }
            assert(digits_val(digits.take(i - d0 + 1)) == acc * 10 + d);
        }
        match next {
            Option::Some(v) => {
                acc = v;
            },
            Option::None => {
                proof {
                    if all_digit_bytes(digits) {
                        lemma_digits_val_mono(digits, i - d0 + 1);
                    } else {
                    }
                }
                return None;
            },
        }
        i = i + 1;
    }
    proof {
        assert(digits.take(hi - d0) =~= digits);
    }
    Some(acc)
}

/// A line with its trailing carriage return removed, if it has one.
pub open spec fn strip_cr(line: Seq<u8>) -> Seq<u8> {
    if line.len() > 0 && line.last() == 13 {
        line.drop_last()
    } else {
        line
    }
}

/// The range one line grants: the line must hold three colon-separated
/// fields, the first naming the user or the numeric id, the other two
/// parsing as numbers.
pub open spec fn line_range(line: Seq<u8>, id: Seq<u8>, name: Option<Seq<u8>>) -> Option<
    (usize, usize),
> {
    let l = strip_cr(line);
    let c1 = find_byte(l, 0, 58);
    if c1 == l.len() {
        None
    } else {
        let c2 = find_byte(l, c1 + 1, 58);
        if c2 == l.len() {
            None
        } else {
            let p0 = l.take(c1);
            let p1 = l.subrange(c1 + 1, c2);
            let p2 = l.subrange(c2 + 1, l.len() as int);
            if p0 != id && (match name {
                Some(nm) => p0 != nm,
                None => true,
            }) {
                None
            } else {
                match (parse_usize_spec(p1), parse_usize_spec(p2)) {
                    (Some(a), Some(b)) => Some((a, b)),
                    _ => None,
                }
            }
        }
    }
}

/// The ranges granted by the content, line by line.
pub open spec fn subid_ranges_spec(content: Seq<u8>, id: Seq<u8>, name: Option<Seq<u8>>) -> Seq<
    (usize, usize),
>
    decreases content.len(),
{
    if content.len() == 0 {
        Seq::<(usize, usize)>::empty()
    } else {
        let e = find_byte(content, 0, 10);
        let line = content.take(e);
        let rest = if 0 <= e < content.len() {
            content.subrange(e + 1, content.len() as int)
        } else {
            Seq::<u8>::empty()
        };
        (match line_range(line, id, name) {
            Some(r) => seq![r],
            None => Seq::<(usize, usize)>::empty(),
        }) + subid_ranges_spec(rest, id, name)
    }
}

/// The pairs a range list stands for.
pub open spec fn range_pairs(rs: Seq<SubIdRange>) -> Seq<(usize, usize)> {
    rs.map(|i: int, r: SubIdRange| (r.start, r.count))
}

/// Whether two byte runs are equal, one taken from `content`.
fn bytes_eq_range(content: &[u8], lo: usize, hi: usize, other: &[u8]) -> (r: bool)
    requires
        lo <= hi <= content@.len(),
    ensures
        r == (content@.subrange(lo as int, hi as int) == other@),
{
    let ghost bs = content@.subrange(lo as int, hi as int);
    if hi - lo != other.len() {
        proof {
            assert(bs.len() != other@.len());
        }
        return false;
    }
    let mut i: usize = 0;
    while i < other.len()
        invariant
            lo <= hi <= content@.len(),
            hi - lo == other@.len(),
            i <= other@.len(),
            bs == content@.subrange(lo as int, hi as int),
            forall|j: int| 0 <= j < i ==> bs[j] == other@[j],
        decreases other@.len() - i,
    {
        if content[lo + i] != other[i] {
            proof {
                assert(bs[i as int] != other@[i as int]);
            }
            return false;
        }
        i = i + 1;
    }
    proof {
        assert(bs =~= other@);
    }
    true
}

/// Parse one line of the content, between `lo` and `hi`.
#[verifier::rlimit(100)]
fn parse_line(content: &[u8], lo: usize, hi: usize, id: &[u8], name: Option<&[u8]>) -> (r:
    Option<(usize, usize)>)
    requires
        lo <= hi <= content@.len(),
    ensures
        r == line_range(
            content@.subrange(lo as int, hi as int),
            id@,
            match name {
                Some(nm) => Some(nm@),
                None => None,
            },
        ),
{
    let ghost line = content@.subrange(lo as int, hi as int);
    let mut hi = hi;
    if hi > lo && content[hi - 1] == 13 {
        hi = hi - 1;
    }
    let ghost l = content@.subrange(lo as int, hi as int);
    proof {
        if line.len() > 0 && line.last() == 13 {
            assert(l =~= strip_cr(line));
        } else {
            assert(l =~= strip_cr(line));
        }
    }
    let c1 = find_byte_exec(content, lo, hi, 58);
    proof {
        lemma_find_byte_window(content@, lo as int, hi as int, 58);
        assert(forall|j: int| 0 <= j < l.len() ==> #[trigger] l[j] == content@[lo + j]);
        lemma_find_byte_unique(l, 0, 58, c1 - lo);
    }
    if c1 == hi {
        return None;
    }
    let c2 = find_byte_exec(content, c1 + 1, hi, 58);
    proof {
        lemma_find_byte_window(content@, c1 as int + 1, hi as int, 58);
        let w2 = content@.subrange(c1 as int + 1, hi as int);
        assert(forall|j: int| 0 <= j < w2.len() ==> #[trigger] w2[j] == l[c1 - lo + 1 + j]);
        assert(forall|i: int| c1 - lo + 1 <= i < c2 - lo ==> l[i] != 58) by {
            assert(forall|i: int|
                c1 - lo + 1 <= i < c2 - lo ==> l[i] == w2[i - (c1 - lo) - 1]);
        }
        lemma_find_byte_unique(l, c1 - lo + 1, 58, c2 - lo);
    }
    if c2 == hi {
        return None;
    }
    proof {
        assert(l.take(c1 - lo) =~= content@.subrange(lo as int, c1 as int));
        assert(l.subrange(c1 - lo + 1, c2 - lo) =~= content@.subrange(c1 as int + 1, c2 as int));
        assert(l.subrange(c2 - lo + 1, l.len() as int) =~= content@.subrange(
            c2 as int + 1,
            hi as int,
        ));
    }
    let id_match = bytes_eq_range(content, lo, c1, id);
    let name_match = match name {
        Option::Some(nm) => bytes_eq_range(content, lo, c1, nm),
        Option::None => false,
    };
    if !id_match && !name_match {
        return None;
    }
    let a = parse_usize_bytes(content, c1 + 1, c2);
    let b = parse_usize_bytes(content, c2 + 1, hi);
    match (a, b) {
        (Option::Some(x), Option::Some(y)) => Some((x, y)),
        _ => None,
    }
}

/// The first position of `b` in `content` between `lo` and `hi`, or `hi`.
fn find_byte_exec(content: &[u8], lo: usize, hi: usize, b: u8) -> (r: usize)
    requires
        lo <= hi <= content@.len(),
    ensures
        r as int == lo + find_byte(content@.subrange(lo as int, hi as int), 0, b),
        lo <= r <= hi,
{
    let ghost w = content@.subrange(lo as int, hi as int);
    let mut i = lo;
    while i < hi
        invariant
            lo <= i <= hi <= content@.len(),
            w == content@.subrange(lo as int, hi as int),
            find_byte(w, 0, b) == find_byte(w, i - lo, b),
        decreases hi - i,
    {
        proof {
            assert(w[i - lo] == content@[i as int]);
        }
        if content[i] == b {
            return i;
        }
        i = i + 1;
    }
    proof {
        assert(find_byte(w, w.len() as int, b) == w.len());
    }
    hi
}

/// The window-relative search agrees with a search over the window.
proof fn lemma_find_byte_window(bs: Seq<u8>, lo: int, hi: int, b: u8)
    requires
        0 <= lo <= hi <= bs.len(),
    ensures
        ({
            let w = bs.subrange(lo, hi);
            let f = find_byte(w, 0, b);
            &&& 0 <= f <= w.len()
            &&& f < w.len() ==> w[f] == b
            &&& forall|i: int| 0 <= i < f ==> w[i] != b
        }),
{
    lemma_find_byte(bs.subrange(lo, hi), 0, b);
}

/// The sub-id ranges the content grants the user or group: one per line
/// whose first field names them and whose other two fields are numbers.
pub fn get_sub_id_ranges(content: &[u8], id: &str, name: Option<&str>) -> (r: Vec<SubIdRange>)
    ensures
        range_pairs(r@) == subid_ranges_spec(
            content@,
            id.spec_bytes(),
            match name {
                Some(nm) => Some(nm.spec_bytes()),
                None => None,
            },
        ),
{
    let id_bytes = id.as_bytes();
    let name_bytes = match name {
        Option::Some(nm) => Some(nm.as_bytes()),
        Option::None => None,
    };
    let ghost gname: Option<Seq<u8>> = match name {
        Some(nm) => Some(nm.spec_bytes()),
        None => None,
    };
    let mut out: Vec<SubIdRange> = Vec::new();
    let n = content.len();
    let mut pos: usize = 0;
    proof {
        assert(range_pairs(out@) =~= Seq::<(usize, usize)>::empty());
        assert(content@.subrange(0, n as int) =~= content@);
    }
    while pos < n
        invariant
            pos <= n == content@.len(),
            id_bytes@ == id.spec_bytes(),
            (match name_bytes {
                Some(nb) => gname matches Some(g) && nb@ == g,
                None => gname is None,
            }),
            range_pairs(out@) + subid_ranges_spec(
                content@.subrange(pos as int, n as int),
                id.spec_bytes(),
                gname,
            ) == subid_ranges_spec(content@, id.spec_bytes(), gname),
        decreases n - pos,
    {
        let ghost restw = content@.subrange(pos as int, n as int);
        let e = find_byte_exec(content, pos, n, 10);
        proof {
            lemma_find_byte_window(content@, pos as int, n as int, 10);
            assert(restw.take(e - pos) =~= content@.subrange(pos as int, e as int));
        }
        let parsed = parse_line(content, pos, e, id_bytes, name_bytes);
        let ghost out_prev = range_pairs(out@);
        match parsed {
            Option::Some(p) => {
                out.push(SubIdRange { start: p.0, count: p.1 });
                proof {
                    assert(range_pairs(out@) =~= out_prev.push(p));
                }
            },
            Option::None => {},
        }
        let next = if e < n {
            e + 1
        } else {
            n
        };
        proof {
            if e < n {
                assert(restw.subrange(e - pos + 1, restw.len() as int) =~= content@.subrange(
                    next as int,
                    n as int,
                ));
            } else {
                assert(content@.subrange(next as int, n as int) =~= Seq::<u8>::empty());
            }
            assert(subid_ranges_spec(restw, id.spec_bytes(), gname) == (match line_range(
                restw.take(e - pos),
                id.spec_bytes(),
                gname,
            ) {
                Some(rr) => seq![rr],
                None => Seq::<(usize, usize)>::empty(),
            }) + subid_ranges_spec(
                content@.subrange(next as int, n as int),
                id.spec_bytes(),
                gname,
            ));
            match parsed {
                Some(p) => {
                    assert(range_pairs(out@) =~= out_prev + seq![p]);
                },
                None => {},
            }
        }
        pos = next;
    }
    proof {
        assert(subid_ranges_spec(content@.subrange(n as int, n as int), id.spec_bytes(), gname)
            == Seq::<(usize, usize)>::empty()) by {
            assert(content@.subrange(n as int, n as int) =~= Seq::<u8>::empty());
        }
        assert(range_pairs(out@) =~= range_pairs(out@) + Seq::<(usize, usize)>::empty());
    }
    out
}


/// The decimal digit character for a value under ten.
pub open spec fn digit_char(n: int) -> char {
    if n == 0 {
        '0'
    } else if n == 1 {
        '1'
    } else if n == 2 {
        '2'
    } else if n == 3 {
        '3'
    } else if n == 4 {
        '4'
    } else if n == 5 {
        '5'
    } else if n == 6 {
        '6'
    } else if n == 7 {
        '7'
    } else if n == 8 {
        '8'
    } else {
        '9'
    }
}

/// The decimal rendering of `n`, most significant digit first.
pub open spec fn dec_chars(n: nat) -> Seq<char>
    decreases n,
{
    if n < 10 {
        seq![digit_char(n as int)]
    } else {
        dec_chars(n / 10).push(digit_char((n % 10) as int))
    }
}

/// Append one decimal digit character.
fn push_digit(s: &mut String, d: u64)
    requires
        d < 10,
    ensures
        final(s)@ == old(s)@ + seq![digit_char(d as int)],
{
    if d == 0 {
        s.append("0");
        proof {
            reveal_strlit("0");
            assert(final(s)@ =~= old(s)@ + seq![digit_char(d as int)]);
        }
    } else if d == 1 {
        s.append("1");
        proof {
            reveal_strlit("1");
            assert(final(s)@ =~= old(s)@ + seq![digit_char(d as int)]);
        }
    } else if d == 2 {
        s.append("2");
        proof {
            reveal_strlit("2");
            assert(final(s)@ =~= old(s)@ + seq![digit_char(d as int)]);
        }
    } else if d == 3 {
        s.append("3");
        proof {
            reveal_strlit("3");
            assert(final(s)@ =~= old(s)@ + seq![digit_char(d as int)]);
        }
    } else if d == 4 {
        s.append("4");
        proof {
            reveal_strlit("4");
            assert(final(s)@ =~= old(s)@ + seq![digit_char(d as int)]);
        }
    } else if d == 5 {
        s.append("5");
        proof {
            reveal_strlit("5");
            assert(final(s)@ =~= old(s)@ + seq![digit_char(d as int)]);
        }
    } else if d == 6 {
        s.append("6");
        proof {
            reveal_strlit("6");
            assert(final(s)@ =~= old(s)@ + seq![digit_char(d as int)]);
        }
    } else if d == 7 {
        s.append("7");
        proof {
            reveal_strlit("7");
            assert(final(s)@ =~= old(s)@ + seq![digit_char(d as int)]);
        }
    } else if d == 8 {
        s.append("8");
        proof {
            reveal_strlit("8");
            assert(final(s)@ =~= old(s)@ + seq![digit_char(d as int)]);
        }
    } else {
        s.append("9");
        proof {
            reveal_strlit("9");
            assert(final(s)@ =~= old(s)@ + seq![digit_char(d as int)]);
        }
    }
}

/// Append the decimal rendering of `n`.
fn push_u64_chars(s: &mut String, n: u64)
    ensures
        final(s)@ == old(s)@ + dec_chars(n as nat),
    decreases n,
{
    if n >= 10 {
        push_u64_chars(s, n / 10);
    }
    push_digit(s, n % 10);
    assert(final(s)@ =~= old(s)@ + dec_chars(n as nat));
}

/// The decimal rendering of `n` as a string.
pub fn u64_string(n: u64) -> (r: String)
    ensures
        r@ == dec_chars(n as nat),
{
    let mut s = String::new();
    push_u64_chars(&mut s, n);
    proof {
        assert(s@ =~= dec_chars(n as nat));
    }
    s
}

/// The id-mapping arguments for the granted ranges, from `next_id` on:
/// each range maps `count` ids starting at `next_id` to its `start`; the
/// second result is the next unmapped id, the count of mapped ids.
pub open spec fn map_args_rec(ranges: Seq<(usize, usize)>, next_id: int) -> (Seq<Seq<char>>, int)
    decreases ranges.len(),
{
    if ranges.len() == 0 {
        (Seq::<Seq<char>>::empty(), next_id)
    } else {
        let r0 = ranges[0];
        let rest = map_args_rec(ranges.drop_first(), next_id + r0.1);
        (
            seq![
                dec_chars(next_id as nat),
                dec_chars(r0.0 as nat),
                dec_chars(r0.1 as nat),
            ] + rest.0,
            rest.1,
        )
    }
}

/// The next unmapped id never shrinks as ranges are consumed.
proof fn lemma_map_args_total(ranges: Seq<(usize, usize)>, next_id: int)
    requires
        next_id >= 0,
    ensures
        map_args_rec(ranges, next_id).1 >= next_id,
    decreases ranges.len(),
{
    if ranges.len() > 0 {
        lemma_map_args_total(ranges.drop_first(), next_id + ranges[0].1);
    }
}

/// The id-mapping argument list for a process: the child pid, a root
/// mapping of the caller's own id, then one mapping per granted range;
/// and the total number of ids mapped.
pub open spec fn newidmap_args_spec(
    content: Seq<u8>,
    id: Seq<char>,
    id_bytes: Seq<u8>,
    name: Option<Seq<u8>>,
    child: int,
) -> (Seq<Seq<char>>, int) {
    let ranges = subid_ranges_spec(content, id_bytes, name);
    let rest = map_args_rec(ranges, 1);
    (seq![dec_chars(child as nat), "0"@, id, "1"@] + rest.0, rest.1)
}

/// The views of a list of strings.
pub open spec fn string_views(ss: Seq<String>) -> Seq<Seq<char>> {
    ss.map(|i: int, s: String| s@)
}

/// The arguments to hand `newuidmap` or `newgidmap` for the ranges the
/// content grants, and the number of ids that will be mapped: the caller's
/// id maps to root, then each granted range in order.
pub fn newidmap_args(content: &[u8], id: &str, name: Option<&str>, child: i32) -> (r: (
    Vec<String>,
    usize,
))
    requires
        child >= 0,
        newidmap_args_spec(
            content@,
            id@,
            id.spec_bytes(),
            match name {
                Some(nm) => Some(nm.spec_bytes()),
                None => None,
            },
            child as int,
        ).1 <= usize::MAX,
    ensures
        ({
            let spec = newidmap_args_spec(
                content@,
                id@,
                id.spec_bytes(),
                match name {
                    Some(nm) => Some(nm.spec_bytes()),
                    None => None,
                },
                child as int,
            );
            &&& string_views(r.0@) == spec.0
            &&& r.1 as int == spec.1
        }),
{
    let ghost gname: Option<Seq<u8>> = match name {
        Some(nm) => Some(nm.spec_bytes()),
        None => None,
    };
    let ranges = get_sub_id_ranges(content, id, name);
    let ghost granges = subid_ranges_spec(content@, id.spec_bytes(), gname);
    let mut args: Vec<String> = Vec::new();
    args.push(u64_string(child as u64));
    args.push(String::from_str("0"));
    args.push(String::from_str(id));
    args.push(String::from_str("1"));
    proof {
        assert(string_views(args@) =~= seq![
            dec_chars(child as nat),
            "0"@,
            id@,
            "1"@,
        ]);
    }
    let ghost head = string_views(args@);
    let mut next_id: usize = 1;
    let mut i: usize = 0;
    proof {
        assert(granges.skip(0) =~= granges);
        lemma_map_args_total(granges, 1);
    }
    while i < ranges.len()
        invariant
            i <= ranges@.len(),
            range_pairs(ranges@) == granges,
            head == seq![dec_chars(child as nat), "0"@, id@, "1"@],
            child >= 0,
            1 <= next_id,
            map_args_rec(granges, 1).1 <= usize::MAX,
            map_args_rec(granges, 1).0 == string_views(args@).skip(4) + map_args_rec(
                granges.skip(i as int),
                next_id as int,
            ).0,
            map_args_rec(granges, 1).1 == map_args_rec(
                granges.skip(i as int),
                next_id as int,
            ).1,
            string_views(args@).take(4) == head,
            string_views(args@).len() >= 4,
        decreases ranges@.len() - i,
    {
        proof {
            assert(granges.skip(i as int)[0] == granges[i as int]);
            assert(granges[i as int] == (ranges@[i as int].start, ranges@[i as int].count));
            assert(granges.skip(i as int).drop_first() =~= granges.skip(i + 1));
            lemma_map_args_total(
                granges.skip(i + 1),
                next_id as int + granges[i as int].1,
            );
        }
        let ghost views_prev = string_views(args@);
        let start = ranges[i].start;
        let count = ranges[i].count;
        args.push(u64_string(next_id as u64));
        args.push(u64_string(start as u64));
        args.push(u64_string(count as u64));
        proof {
            assert(string_views(args@) =~= views_prev + seq![
                dec_chars(next_id as nat),
                dec_chars(start as nat),
                dec_chars(count as nat),
            ]);
            assert(string_views(args@).take(4) =~= views_prev.take(4));
            assert(string_views(args@).skip(4) =~= views_prev.skip(4) + seq![
                dec_chars(next_id as nat),
                dec_chars(start as nat),
                dec_chars(count as nat),
            ]);
            assert(map_args_rec(granges.skip(i as int), next_id as int).0 == seq![
                dec_chars(next_id as nat),
                dec_chars(start as nat),
                dec_chars(count as nat),
            ] + map_args_rec(granges.skip(i + 1), next_id as int + count).0);
            assert(map_args_rec(granges, 1).0 =~= string_views(args@).skip(4) + map_args_rec(
                granges.skip(i + 1),
                next_id as int + count,
            ).0);
        }
        next_id = next_id + count;
        i = i + 1;
    }
    proof {
        assert(granges.skip(ranges@.len() as int) =~= Seq::<(usize, usize)>::empty());
        assert(map_args_rec(granges, 1).0 =~= string_views(args@).skip(4));
        assert(string_views(args@) =~= string_views(args@).take(4) + string_views(args@).skip(
            4,
        ));
        assert(string_views(args@) =~= newidmap_args_spec(
            content@,
            id@,
            id.spec_bytes(),
            gname,
            child as int,
        ).0);
    }
    (args, next_id)
}

} // verus!
