use vstd::prelude::*;
use vstd::slice::{slice_subrange, slice_to_vec};

verus! {

/// Longest payload a frame may declare; larger declarations are rejected
/// as malformed rather than allocated.
pub const MAX_FRAME_PAYLOAD: usize = 0x1000000;

/// The ASCII bytes of the length header name.
pub open spec fn header_prefix() -> Seq<u8> {
    seq![
        'C' as u8,
        'o' as u8,
        'n' as u8,
        't' as u8,
        'e' as u8,
        'n' as u8,
        't' as u8,
        '-' as u8,
        'L' as u8,
        'e' as u8,
        'n' as u8,
        'g' as u8,
        't' as u8,
        'h' as u8,
        ':' as u8,
        ' ' as u8,
    ]
}

/// The ASCII bytes of the header terminator: two line breaks.
pub open spec fn header_end() -> Seq<u8> {
    seq![13u8, 10u8, 13u8, 10u8]
}

/// Powers of ten.
pub open spec fn ten_pow(k: nat) -> nat
    decreases k,
{
    if k == 0 {
        1
    } else {
        10 * ten_pow((k - 1) as nat)
    }
}

/// The decimal digits of `n`, most significant first, as ASCII bytes.
pub open spec fn dec_digits(n: nat) -> Seq<u8>
    decreases n,
{
    if n < 10 {
        seq![(48 + n) as u8]
    } else {
        dec_digits(n / 10).push((48 + n % 10) as u8)
    }
}

/// The number the ASCII digit bytes `ds` denote.
pub open spec fn dec_value(ds: Seq<u8>) -> nat
    decreases ds.len(),
{
    if ds.len() == 0 {
        0
    } else {
        dec_value(ds.drop_last()) * 10 + (if 48 <= ds.last() {
            (ds.last() - 48) as nat
        } else {
            0
        })
    }
}

/// Whether `x` is an ASCII digit.
pub open spec fn is_digit(x: u8) -> bool {
    48 <= x <= 57
}

pub proof fn lemma_dec_digits(n: nat)
    ensures
        dec_digits(n).len() >= 1,
        forall|i: int| 0 <= i < dec_digits(n).len() ==> is_digit(#[trigger] dec_digits(n)[i]),
        n >= 1 ==> dec_digits(n)[0] != 48,
        n < 10 ==> dec_digits(n).len() == 1,
        dec_value(dec_digits(n)) == n,
    decreases n,
{
    if n < 10 {
        assert(dec_digits(n) =~= seq![(48 + n) as u8]);
        assert(dec_digits(n).drop_last() =~= Seq::<u8>::empty());
        assert(dec_value(Seq::<u8>::empty()) == 0);
        assert(dec_digits(n).last() == (48 + n) as u8);
    } else {
        lemma_dec_digits(n / 10);
        let pre = dec_digits(n / 10);
        let ds = dec_digits(n);
        assert(ds == pre.push((48 + n % 10) as u8));
        assert(ds.drop_last() =~= pre);
        assert(ds[0] == pre[0]);
        assert(n / 10 >= 1);
        assert forall|i: int| 0 <= i < ds.len() implies is_digit(ds[i]) by {
            if i < pre.len() {
                assert(ds[i] == pre[i]);
            }
        }
        assert((ds.last() - 48) as nat == n % 10);
        assert(dec_value(ds) == dec_value(pre) * 10 + n % 10);
        assert(n / 10 * 10 + n % 10 == n) by {
            vstd::arithmetic::div_mod::lemma_fundamental_div_mod(n as int, 10);
        }
    }
}

/// Digits bound the denoted value from above.
pub proof fn lemma_dec_value_upper(ds: Seq<u8>)
    requires
        forall|i: int| 0 <= i < ds.len() ==> is_digit(#[trigger] ds[i]),
    ensures
        dec_value(ds) < ten_pow(ds.len()),
    decreases ds.len(),
{
    if ds.len() > 0 {
        let pre = ds.drop_last();
        assert forall|i: int| 0 <= i < pre.len() implies is_digit(#[trigger] pre[i]) by {
            assert(pre[i] == ds[i]);
        }
        lemma_dec_value_upper(pre);
        assert(is_digit(ds.last()));
        assert(dec_value(ds) == dec_value(pre) * 10 + (ds.last() - 48));
        assert(dec_value(pre) * 10 <= (ten_pow(pre.len()) - 1) * 10) by (nonlinear_arith)
            requires
                dec_value(pre) < ten_pow(pre.len()),
        ;
    }
}

/// A digit string without a leading zero denotes at least the power of
/// ten of its width.
pub proof fn lemma_dec_value_lower(ds: Seq<u8>)
    requires
        ds.len() >= 1,
        forall|i: int| 0 <= i < ds.len() ==> is_digit(#[trigger] ds[i]),
        ds[0] != 48,
    ensures
        dec_value(ds) >= ten_pow((ds.len() - 1) as nat),
    decreases ds.len(),
{
    if ds.len() == 1 {
        assert(dec_value(ds.drop_last()) == 0) by {
            assert(ds.drop_last().len() == 0);
        }
    } else {
        let pre = ds.drop_last();
        assert forall|i: int| 0 <= i < pre.len() implies is_digit(#[trigger] pre[i]) by {
            assert(pre[i] == ds[i]);
        }
        assert(pre[0] == ds[0]);
        lemma_dec_value_lower(pre);
        assert(dec_value(pre) * 10 >= ten_pow((pre.len() - 1) as nat) * 10) by (nonlinear_arith)
            requires
                dec_value(pre) >= ten_pow((pre.len() - 1) as nat),
        ;
    }
}

/// Leading zeros do not change the denoted value.
pub proof fn lemma_dec_value_zeros(ds: Seq<u8>, z: int)
    requires
        0 <= z <= ds.len(),
        forall|i: int| 0 <= i < z ==> ds[i] == 48,
    ensures
        dec_value(ds) == dec_value(ds.subrange(z, ds.len() as int)),
    decreases ds.len(),
{
    if z == 0 {
        assert(ds.subrange(0, ds.len() as int) =~= ds);
    } else {
        let pre = ds.drop_last();
        assert forall|i: int| 0 <= i < pre.len() && i < z implies pre[i] == 48 by {
            assert(pre[i] == ds[i]);
        }
        if z == ds.len() {
            // the whole string is zeros and denotes nothing
            lemma_dec_value_zeros(pre, pre.len() as int);
            assert(pre.subrange(pre.len() as int, pre.len() as int).len() == 0);
            assert(dec_value(pre) == 0);
            assert(ds.last() == ds[ds.len() - 1]);
            assert(ds.last() == 48);
            assert(dec_value(ds) == 0);
            assert(ds.subrange(z, ds.len() as int).len() == 0);
        } else {
            lemma_dec_value_zeros(pre, z);
            let tail = ds.subrange(z, ds.len() as int);
            assert(tail.drop_last() =~= pre.subrange(z, pre.len() as int));
            assert(tail.last() == ds.last());
        }
    }
}

/// Number of consecutive ASCII digits in `b` starting at `from`.
pub open spec fn digit_run(b: Seq<u8>, from: int) -> int
    decreases b.len() - from,
{
    if from < 0 || from >= b.len() {
        0
    } else if is_digit(b[from]) {
        1 + digit_run(b, from + 1)
    } else {
        0
    }
}

/// A run of digits followed by a non-digit or the buffer's end has the
/// run's length.
pub proof fn lemma_digit_run_is(b: Seq<u8>, from: int, k: int)
    requires
        0 <= from,
        from + k <= b.len(),
        k >= 0,
        forall|j: int| 0 <= j < k ==> is_digit(#[trigger] b[from + j]),
        from + k == b.len() || !is_digit(b[from + k]),
    ensures
        digit_run(b, from) == k,
    decreases k,
{
    if k == 0 {
    } else {
        assert(is_digit(b[from + 0]));
        assert forall|j: int| 0 <= j < k - 1 implies is_digit(#[trigger] b[from + 1 + j]) by {
            assert(b[from + 1 + j] == b[from + (j + 1)]);
        }
        assert(from + 1 + (k - 1) == b.len() || !is_digit(b[from + 1 + (k - 1)]));
        lemma_digit_run_is(b, from + 1, k - 1);
    }
}

/// How many bytes of `pat` match in `b` at offset `t`, stopping at the
/// first mismatch or at the end of `b`.
pub open spec fn match_at(b: Seq<u8>, t: int, pat: Seq<u8>) -> int
    decreases pat.len(),
{
    if pat.len() == 0 || t < 0 || t >= b.len() {
        0
    } else if b[t] == pat[0] {
        1 + match_at(b, t + 1, pat.drop_first())
    } else {
        0
    }
}

/// A run of matching bytes ended by a mismatch, the pattern's end, or the
/// buffer's end has the run's length.
pub proof fn lemma_match_at_is(b: Seq<u8>, t: int, pat: Seq<u8>, k: int)
    requires
        0 <= t,
        0 <= k <= pat.len(),
        t + k <= b.len(),
        forall|j: int| 0 <= j < k ==> b[t + j] == #[trigger] pat[j],
        k == pat.len() || t + k == b.len() || b[t + k] != pat[k],
    ensures
        match_at(b, t, pat) == k,
    decreases k,
{
    if k == 0 {
        if pat.len() > 0 && 0 <= t < b.len() && b[t] == pat[0] {
            assert(t + 0 == b.len() || b[t + 0] != pat[0]);
            assert(false);
        }
    } else {
        assert(b[t + 0] == pat[0]);
        let sub = pat.drop_first();
        assert forall|j: int| 0 <= j < k - 1 implies b[t + 1 + j] == #[trigger] sub[j] by {
            assert(sub[j] == pat[j + 1]);
            assert(b[t + 1 + j] == b[t + (j + 1)]);
        }
        assert(k - 1 == sub.len() || t + 1 + (k - 1) == b.len() || b[t + 1 + (k - 1)] != sub[k
            - 1]) by {
            if k < pat.len() {
                assert(sub[k - 1] == pat[k]);
            }
        }
        lemma_match_at_is(b, t + 1, sub, k - 1);
    }
}

/// The bytes of one whole frame: the length header naming the payload's
/// byte count in decimal, the blank-line terminator, then the payload.
pub open spec fn frame_bytes(payload: Seq<u8>) -> Seq<u8> {
    header_prefix() + dec_digits(payload.len()) + header_end() + payload
}

/// Whether `b` begins with `prefix`.
pub open spec fn starts_with(b: Seq<u8>, prefix: Seq<u8>) -> bool {
    b.len() >= prefix.len() && b.subrange(0, prefix.len() as int) == prefix
}

/// Whether `b` could still grow into data beginning with `prefix`.
pub open spec fn prefix_of(b: Seq<u8>, prefix: Seq<u8>) -> bool {
    b.len() <= prefix.len() && prefix.subrange(0, b.len() as int) == b
}

/// The verdict over a receive buffer, in mathematical form.
#[verifier::ext_equal]
pub enum SpecFrame {
    /// More bytes must arrive before a frame can be judged.
    Incomplete,
    /// The buffer can never begin with a well-formed frame.
    Invalid,
    /// A whole frame sits at the front: its payload and its total span.
    Frame(Seq<u8>, int),
}

/// One header line break.
pub open spec fn crlf() -> Seq<u8> {
    seq![13u8, 10u8]
}

/// Where the header section stands, scanning from `u`.
pub enum HeaderScan {
    /// The section is still open; more bytes must arrive.
    NeedMore,
    /// A stray carriage return: no well-formed header section can follow.
    Bad,
    /// The empty line was found; the payload begins at this index.
    End(int),
}

/// Scan ignored header lines from `u` for the empty line that closes the
/// header section. `at_line_start` says whether `u` opens a line; a
/// carriage return may stand only as part of a line break.
pub open spec fn scan_headers(b: Seq<u8>, u: int, at_line_start: bool) -> HeaderScan
    decreases b.len() - u,
{
    if u < 0 || u >= b.len() {
        HeaderScan::NeedMore
    } else if b[u] == 13 {
        if u + 1 >= b.len() {
            HeaderScan::NeedMore
        } else if b[u + 1] != 10 {
            HeaderScan::Bad
        } else if at_line_start {
            HeaderScan::End(u + 2)
        } else {
            scan_headers(b, u + 2, true)
        }
    } else {
        scan_headers(b, u + 1, false)
    }
}

/// The verdict once the header section is judged: `v` payload bytes must
/// follow it.
pub open spec fn after_scan(b: Seq<u8>, hs: HeaderScan, v: nat) -> SpecFrame {
    match hs {
        HeaderScan::NeedMore => SpecFrame::Incomplete,
        HeaderScan::Bad => SpecFrame::Invalid,
        HeaderScan::End(e) => {
            if b.len() < e + v {
                SpecFrame::Incomplete
            } else {
                SpecFrame::Frame(b.subrange(e, e + v), e + v)
            }
        },
    }
}

/// The frame parser: a buffer either needs more bytes, can never hold a
/// frame, or yields the first frame's payload and length. The length
/// field opens the header as a run of decimal digits — leading zeros are
/// tolerated — and may declare at most `MAX_FRAME_PAYLOAD` bytes; further
/// header lines up to the blank separator are tolerated and ignored.
pub open spec fn spec_parse_frame(b: Seq<u8>) -> SpecFrame {
    if !starts_with(b, header_prefix()) {
        if prefix_of(b, header_prefix()) {
            SpecFrame::Incomplete
        } else {
            SpecFrame::Invalid
        }
    } else {
        let d = digit_run(b, 16);
        if d == 0 {
            if b.len() == 16 {
                SpecFrame::Incomplete
            } else {
                SpecFrame::Invalid
            }
        } else {
            let v = dec_value(b.subrange(16, 16 + d));
            if v > MAX_FRAME_PAYLOAD {
                SpecFrame::Invalid
            } else {
                let t = 16 + d;
                let m = match_at(b, t, crlf());
                if m < 2 && t + m < b.len() {
                    SpecFrame::Invalid
                } else if m < 2 {
                    SpecFrame::Incomplete
                } else {
                    after_scan(b, scan_headers(b, t + 2, true), v)
                }
            }
        }
    }
}

/// The verdict over a receive buffer.
pub enum FrameParse {
    /// More bytes must arrive before a frame can be judged.
    Incomplete,
    /// The buffer can never begin with a well-formed frame.
    Invalid,
    /// A whole frame sat at the front; `consumed` bytes of the buffer
    /// belong to it.
    Frame { payload: Vec<u8>, consumed: usize },
}

/// The length header's bytes, for building and checking frames.
fn header_prefix_vec() -> (r: Vec<u8>)
    ensures
        r@ == header_prefix(),
{
    let mut r: Vec<u8> = Vec::new();
    r.push('C' as u8);
    r.push('o' as u8);
    r.push('n' as u8);
    r.push('t' as u8);
    r.push('e' as u8);
    r.push('n' as u8);
    r.push('t' as u8);
    r.push('-' as u8);
    r.push('L' as u8);
    r.push('e' as u8);
    r.push('n' as u8);
    r.push('g' as u8);
    r.push('t' as u8);
    r.push('h' as u8);
    r.push(':' as u8);
    r.push(' ' as u8);
    assert(r@ =~= header_prefix());
    r
}

/// Append the decimal digits of `n`.
fn push_decimal(n: usize, out: &mut Vec<u8>)
    ensures
        final(out)@ == old(out)@ + dec_digits(n as nat),
    decreases n,
{
    if n < 10 {
        out.push((48 + n) as u8);
        assert(final(out)@ =~= old(out)@ + dec_digits(n as nat));
    } else {
        push_decimal(n / 10, out);
        out.push((48 + (n % 10)) as u8);
        assert(final(out)@ =~= old(out)@ + dec_digits(n as nat));
    }
}

/// Wrap a payload in one frame: length header, blank line, payload.
pub fn encode_frame(payload: &Vec<u8>) -> (r: Vec<u8>)
    ensures
        r@ == frame_bytes(payload@),
{
    let mut r = header_prefix_vec();
    push_decimal(payload.len(), &mut r);
    r.push(13);
    r.push(10);
    r.push(13);
    r.push(10);
    r.extend_from_slice(payload.as_slice());
    assert(r@ =~= frame_bytes(payload@));
    r
}

/// Judge the front of a receive buffer: a whole frame, more bytes needed,
/// or bytes that can never begin a frame.
pub fn try_parse_frame(buf: &Vec<u8>) -> (r: FrameParse)
    ensures
        match r {
            FrameParse::Incomplete => spec_parse_frame(buf@) is Incomplete,
            FrameParse::Invalid => spec_parse_frame(buf@) is Invalid,
            FrameParse::Frame { payload, consumed } => spec_parse_frame(buf@) matches
                SpecFrame::Frame(p, c) && p == payload@ && c == consumed as int,
        },
{
    let hp = header_prefix_vec();
    // the length header must open the buffer
    let mut k: usize = 0;
    while k < 16 && k < buf.len()
        invariant
            k <= 16,
            k <= buf@.len(),
            hp@ == header_prefix(),
            forall|j: int| 0 <= j < k ==> buf@[j] == header_prefix()[j],
        decreases 16 - k,
    {
        if buf[k] != hp[k] {
            proof {
                if buf@.len() >= 16 {
                    assert(buf@.subrange(0, 16)[k as int] != header_prefix()[k as int]);
                    assert(!starts_with(buf@, header_prefix()));
                } else {
                    assert(!starts_with(buf@, header_prefix()));
                }
                if buf@.len() <= 16 {
                    assert(header_prefix().subrange(0, buf@.len() as int)[k as int]
                        == header_prefix()[k as int]);
                    assert(!prefix_of(buf@, header_prefix()));
                } else {
                    assert(!prefix_of(buf@, header_prefix()));
                }
            }
            return FrameParse::Invalid;
        }
        k = k + 1;
    }
    if k < 16 {
        // the buffer ended inside the header name
        proof {
            assert(buf@.len() == k);
            assert(header_prefix().subrange(0, k as int) =~= buf@);
        }
        return FrameParse::Incomplete;
    }
    assert(starts_with(buf@, header_prefix())) by {
        assert(buf@.subrange(0, 16) =~= header_prefix());
    }
    // scan the decimal length field
    let mut d: usize = 0;
    while d < buf.len() - 16 && 48 <= buf[16 + d] && buf[16 + d] <= 57
        invariant
            buf@.len() >= 16,
            d <= buf@.len() - 16,
            forall|j: int| 0 <= j < d ==> is_digit(#[trigger] buf@[16 + j]),
        decreases buf@.len() - d,
    {
        d = d + 1;
    }
    proof {
        lemma_digit_run_is(buf@, 16, d as int);
    }
    if d == 0 {
        if buf.len() == 16 {
            return FrameParse::Incomplete;
        } else {
            return FrameParse::Invalid;
        }
    }
    let blen = buf.len();
    assert(buf@.len() == blen);
    let ghost digits = buf@.subrange(16, 16 + d as int);
    proof {
        assert forall|i: int| 0 <= i < digits.len() implies is_digit(#[trigger] digits[i]) by {
            assert(digits[i] == buf@[16 + i]);
        }
    }
    // tolerate leading zeros on the length field
    let mut z: usize = 0;
    while z < d && z < buf.len() - 16 && buf[16 + z] == 48
        invariant
            z <= d,
            16 + d <= buf@.len(),
            d <= buf@.len() - 16,
            buf@.len() >= 16,
            forall|j: int| 0 <= j < z ==> #[trigger] buf@[16 + j] == 48,
        decreases d - z,
    {
        z = z + 1;
    }
    let ghost sig = digits.subrange(z as int, d as int);
    proof {
        assert forall|i: int| 0 <= i < digits.len() implies digits[i] == buf@[16 + i] by {}
        lemma_dec_value_zeros(digits, z as int);
        assert forall|i: int| 0 <= i < sig.len() implies is_digit(#[trigger] sig[i]) by {
            assert(sig[i] == digits[z + i]);
        }
    }
    if d - z > 8 {
        // at least nine significant digits always exceed the cap
        proof {
            assert(sig[0] == digits[z as int]);
            assert(sig[0] == buf@[16 + z]);
            assert(sig[0] != 48);
            lemma_dec_value_lower(sig);
            assert(ten_pow((sig.len() - 1) as nat) >= ten_pow(8)) by {
                lemma_ten_pow_increases(8, (sig.len() - 1) as nat);
            }
            assert(ten_pow(8) > MAX_FRAME_PAYLOAD) by {
                reveal_with_fuel(ten_pow, 9);
            }
        }
        return FrameParse::Invalid;
    }
    // read the value; at most eight significant digits fit comfortably
    let mut v: usize = 0;
    let mut i: usize = 0;
    let sig_len = d - z;
    while i < sig_len
        invariant
            i <= sig_len,
            sig_len == d - z,
            z <= d,
            sig_len <= 8,
            16 + d <= buf@.len(),
            buf@.len() <= usize::MAX,
            digits == buf@.subrange(16, 16 + d as int),
            sig == digits.subrange(z as int, d as int),
            forall|j: int| 0 <= j < d ==> is_digit(#[trigger] buf@[16 + j]),
            v == dec_value(sig.subrange(0, i as int)),
            v < 100000000,
        decreases sig_len - i,
    {
        let dig = buf[16 + z + i];
        proof {
            assert(is_digit(buf@[16 + (z + i)]));
            let pre = sig.subrange(0, i as int);
            let cur = sig.subrange(0, i + 1);
            assert(cur.drop_last() =~= pre);
            assert(cur.last() == sig[i as int]);
            assert(sig[i as int] == digits[z + i]);
            assert(digits[z + i] == buf@[16 + (z + i)]);
            assert forall|j: int| 0 <= j < cur.len() implies is_digit(#[trigger] cur[j]) by {
                assert(cur[j] == sig[j]);
                assert(sig[j] == digits[z + j]);
                assert(digits[z + j] == buf@[16 + (z + j)]);
                assert(is_digit(buf@[16 + (z + j)]));
            }
            lemma_dec_value_upper(cur);
            assert(ten_pow(cur.len() as nat) <= ten_pow(8)) by {
                lemma_ten_pow_increases(cur.len() as nat, 8);
            }
            assert(ten_pow(8) == 100000000) by {
                reveal_with_fuel(ten_pow, 9);
            }
        }
        v = v * 10 + ((dig - 48) as usize);
        i = i + 1;
    }
    proof {
        assert(sig.subrange(0, sig.len() as int) =~= sig);
        assert(v as nat == dec_value(digits));
    }
    if v > MAX_FRAME_PAYLOAD {
        return FrameParse::Invalid;
    }
    let t = 16 + d;
    // the length line must close with its own line break
    let mut m: usize = 0;
    while m < 2 && m < buf.len() - t && buf[t + m] == crlf_byte(m)
        invariant
            m <= 2,
            t == 16 + d,
            t <= buf@.len(),
            t + m <= buf@.len(),
            forall|j: int| 0 <= j < m ==> buf@[t + j] == crlf()[j],
        decreases 2 - m,
    {
        m = m + 1;
    }
    proof {
        lemma_match_at_is(buf@, t as int, crlf(), m as int);
    }
    if m < 2 {
        if m < buf.len() - t {
            return FrameParse::Invalid;
        }
        return FrameParse::Incomplete;
    }
    // skip ignored header lines to the blank separator, then take the
    // declared number of payload bytes
    let mut u: usize = t + 2;
    let mut at_start: bool = true;
    while u < buf.len()
        invariant
            t + 2 <= u <= buf@.len(),
            v <= MAX_FRAME_PAYLOAD,
            spec_parse_frame(buf@) == after_scan(
                buf@,
                scan_headers(buf@, u as int, at_start),
                v as nat,
            ),
        decreases buf@.len() - u,
    {
        if buf[u] == 13 {
            if u + 1 >= buf.len() {
                assert(scan_headers(buf@, u as int, at_start) == HeaderScan::NeedMore);
                return FrameParse::Incomplete;
            }
            if buf[u + 1] != 10 {
                assert(scan_headers(buf@, u as int, at_start) == HeaderScan::Bad);
                return FrameParse::Invalid;
            }
            if at_start {
                let e = u + 2;
                assert(scan_headers(buf@, u as int, at_start) == HeaderScan::End(e as int));
                if buf.len() - e < v {
                    return FrameParse::Incomplete;
                }
                let payload = slice_to_vec(slice_subrange(buf.as_slice(), e, e + v));
                assert(payload@ =~= buf@.subrange(e as int, e + v as int));
                return FrameParse::Frame { payload, consumed: e + v };
            }
            assert(scan_headers(buf@, u as int, at_start) == scan_headers(
                buf@,
                u + 2 as int,
                true,
            ));
            u = u + 2;
            at_start = true;
        } else {
            assert(scan_headers(buf@, u as int, at_start) == scan_headers(
                buf@,
                u + 1 as int,
                false,
            ));
            u = u + 1;
            at_start = false;
        }
    }
    assert(scan_headers(buf@, u as int, at_start) == HeaderScan::NeedMore);
    FrameParse::Incomplete
}

/// Byte `i` of a header line break.
fn crlf_byte(i: usize) -> (r: u8)
    requires
        i < 2,
    ensures
        r == crlf()[i as int],
{
    if i == 0 {
        13
    } else {
        10
    }
}

/// Powers of ten do not shrink as the exponent grows.
pub proof fn lemma_ten_pow_increases(a: nat, b: nat)
    requires
        a <= b,
    ensures
        ten_pow(a) <= ten_pow(b),
    decreases b,
{
    if a < b {
        lemma_ten_pow_increases(a, (b - 1) as nat);
        assert(ten_pow(b) == 10 * ten_pow((b - 1) as nat));
        assert(ten_pow((b - 1) as nat) >= 1) by {
            lemma_ten_pow_pos((b - 1) as nat);
        }
    }
}

/// Powers of ten are positive.
pub proof fn lemma_ten_pow_pos(k: nat)
    ensures
        ten_pow(k) >= 1,
    decreases k,
{
    if k > 0 {
        lemma_ten_pow_pos((k - 1) as nat);
    }
}

/// A buffer that opens with a whole frame parses to exactly that frame:
/// decoding inverts encoding, whatever follows.
pub proof fn lemma_frame_round_trip(payload: Seq<u8>, rest: Seq<u8>)
    requires
        payload.len() <= MAX_FRAME_PAYLOAD,
    ensures
        spec_parse_frame(frame_bytes(payload) + rest) matches SpecFrame::Frame(p, c) && p
            == payload && c == frame_bytes(payload).len(),
{
    let b = frame_bytes(payload) + rest;
    let n = payload.len();
    lemma_dec_digits(n);
    let ds = dec_digits(n);
    let dl = ds.len() as int;
    assert(b.len() >= 16 + dl + 4 + n);
    assert forall|j: int| 0 <= j < 16 implies b[j] == header_prefix()[j] by {
        assert(b[j] == frame_bytes(payload)[j]);
    }
    assert(starts_with(b, header_prefix())) by {
        assert(b.subrange(0, 16) =~= header_prefix());
    }
    assert forall|j: int| 0 <= j < dl implies is_digit(#[trigger] b[16 + j]) by {
        assert(b[16 + j] == ds[j]);
    }
    assert(b[16 + dl] == header_end()[0]);
    assert(!is_digit(b[16 + dl]));
    lemma_digit_run_is(b, 16, dl);
    assert(digit_run(b, 16) == dl);
    assert(b.subrange(16, 16 + dl) =~= ds);
    assert(dec_value(b.subrange(16, 16 + dl)) == n);
    let t = 16 + dl;
    assert forall|j: int| 0 <= j < 4 implies b[t + j] == #[trigger] header_end()[j] by {
        assert(b[t + j] == frame_bytes(payload)[t + j]);
    }
    assert forall|j: int| 0 <= j < 2 implies b[t + j] == #[trigger] crlf()[j] by {
        assert(b[t + j] == header_end()[j]);
    }
    lemma_match_at_is(b, t, crlf(), 2);
    assert(b[t + 2] == 13 && b[t + 3] == 10);
    assert(scan_headers(b, t + 2, true) == HeaderScan::End(t + 4));
    assert(b.len() >= t + 4 + n);
    assert(b.subrange(t + 4, t + 4 + n as int) =~= payload);
    assert(frame_bytes(payload).len() == t + 4 + n);
}

} // verus!
