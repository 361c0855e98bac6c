//! The export file formats, and their re-import.
//!
//! Raw spectra are delimited text: one `wavelength;power` pair per
//! line, newline terminated.  Fitted-parameter sets are header-bearing
//! tabular records `a,x0,w,bias`.  Every numeric field is a fixed-point
//! milli value printed with a sign, the integer part and exactly three
//! decimal places, so re-importing a file this module wrote recovers
//! the values exactly.  The importers accept exactly the canonical form
//! the exporters produce: a parse that succeeds proves byte-for-byte
//! that the input is the serialization of the returned values.
use vstd::prelude::*;

use crate::errors::CoreError;
use crate::spectrum::Sample;

verus! {

/// One fitted-parameter record, in milli-units.
#[derive(Clone, Copy, Debug, PartialEq, Eq, Structural)]
pub struct Record {
    pub a: i64,
    pub x0: i64,
    pub w: i64,
    pub bias: i64,
}

/// The decimal digits of `n`, most significant first.
pub open spec fn spec_u64_dec(n: nat) -> Seq<u8>
    decreases n,
{
    if n < 10 {
        seq![(48 + n) as u8]
    } else {
        spec_u64_dec(n / 10) + seq![(48 + n % 10) as u8]
    }
}

/// The canonical text of the milli value `v`: optional minus sign,
/// integer part, a dot and exactly three decimal places.
pub open spec fn spec_milli(v: int) -> Seq<u8> {
    let m = if v >= 0 {
        v
    } else {
        -v
    };
    let sign: Seq<u8> = if v < 0 {
        seq![45u8]
    } else {
        Seq::empty()
    };
    sign + spec_u64_dec((m / 1000) as nat) + seq![46u8] + seq![
        (48 + (m % 1000) / 100) as u8,
        (48 + (m % 100) / 10) as u8,
        (48 + m % 10) as u8,
    ]
}

/// One spectrum line: `wavelength;power` and a newline.
pub open spec fn spec_txt_line(wl: int, pw: int) -> Seq<u8> {
    spec_milli(wl) + seq![59u8] + spec_milli(pw) + seq![10u8]
}

/// The whole delimited-text body for a sample sequence.
pub open spec fn spec_txt(s: Seq<Sample>) -> Seq<u8>
    decreases s.len(),
{
    if s.len() == 0 {
        Seq::empty()
    } else {
        spec_txt(s.drop_last()) + spec_txt_line(s.last().wavelength as int, s.last().power as int)
    }
}

/// One fitted-parameter line: `a,x0,w,bias` and a newline.
pub open spec fn spec_record_line(r: Record) -> Seq<u8> {
    spec_milli(r.a as int) + seq![44u8] + spec_milli(r.x0 as int) + seq![44u8] + spec_milli(
        r.w as int,
    ) + seq![44u8] + spec_milli(r.bias as int) + seq![10u8]
}

/// The header line `a,x0,w,bias` of a fitted-parameter file.
pub open spec fn spec_record_header() -> Seq<u8> {
    seq![97u8, 44u8, 120u8, 48u8, 44u8, 119u8, 44u8, 98u8, 105u8, 97u8, 115u8, 10u8]
}

/// The whole fitted-parameter file body, header included.
pub open spec fn spec_records(rs: Seq<Record>) -> Seq<u8>
    decreases rs.len(),
{
    if rs.len() == 0 {
        spec_record_header()
    } else {
        spec_records(rs.drop_last()) + spec_record_line(rs.last())
    }
}

/// Appends the decimal digits of `n`.
fn push_u64_dec(out: &mut Vec<u8>, n: u64)
    ensures
        final(out)@ == old(out)@ + spec_u64_dec(n as nat),
    decreases n,
{
    if n < 10 {
        out.push(48 + (n as u8));
        proof {
            assert(out@ =~= old(out)@ + spec_u64_dec(n as nat));
        }
    } else {
        push_u64_dec(out, n / 10);
        out.push(48 + ((n % 10) as u8));
        proof {
            assert(out@ =~= old(out)@ + spec_u64_dec(n as nat));
        }
    }
}

/// Appends the canonical text of the milli value `v`.
pub fn push_milli(out: &mut Vec<u8>, v: i64)
    ensures
        final(out)@ == old(out)@ + spec_milli(v as int),
{
    let m: u64 = if v < 0 {
        (-(v as i128)) as u64
    } else {
        v as u64
    };
    if v < 0 {
        out.push(45);
    }
    push_u64_dec(out, m / 1000);
    out.push(46);
    out.push(48 + (((m % 1000) / 100) as u8));
    out.push(48 + (((m % 100) / 10) as u8));
    out.push(48 + ((m % 10) as u8));
    proof {
        assert(out@ =~= old(out)@ + spec_milli(v as int));
    }
}

/// Serializes a sample sequence into the delimited-text format.
#[verifier::rlimit(100)]
pub fn spectrum_to_txt(samples: &Vec<Sample>) -> (r: Vec<u8>)
    ensures
        r@ == spec_txt(samples@),
        samples@.len() == 0 ==> r@.len() == 0,
{
    let mut out: Vec<u8> = Vec::new();
    let n: usize = samples.len();
    let mut i: usize = 0;
    while i < n
        invariant
            n == samples@.len(),
            i <= n,
            out@ == spec_txt(samples@.take(i as int)),
        decreases n - i,
    {
        let s = samples[i];
        push_milli(&mut out, s.wavelength);
        out.push(59);
        push_milli(&mut out, s.power);
        out.push(10);
        proof {
            assert(samples@.take(i + 1).drop_last() =~= samples@.take(i as int));
            assert(samples@.take(i + 1).last() == samples@[i as int]);
            assert(out@ =~= spec_txt(samples@.take(i + 1)));
        }
        i = i + 1;
    }
    proof {
        assert(samples@.take(n as int) =~= samples@);
    }
    out
}

/// Serializes fitted-parameter records, header first.
#[verifier::rlimit(100)]
pub fn records_to_csv(records: &Vec<Record>) -> (r: Vec<u8>)
    ensures
        r@ == spec_records(records@),
{
    let mut out: Vec<u8> = Vec::new();
    out.push(97);
    out.push(44);
    out.push(120);
    out.push(48);
    out.push(44);
    out.push(119);
    out.push(44);
    out.push(98);
    out.push(105);
    out.push(97);
    out.push(115);
    out.push(10);
    proof {
        assert(out@ =~= spec_record_header());
    }
    let n: usize = records.len();
    let mut i: usize = 0;
    while i < n
        invariant
            n == records@.len(),
            i <= n,
            out@ == spec_records(records@.take(i as int)),
        decreases n - i,
    {
        let rec = records[i];
        push_milli(&mut out, rec.a);
        out.push(44);
        push_milli(&mut out, rec.x0);
        out.push(44);
        push_milli(&mut out, rec.w);
        out.push(44);
        push_milli(&mut out, rec.bias);
        out.push(10);
        proof {
            assert(records@.take(i + 1).drop_last() =~= records@.take(i as int));
            assert(records@.take(i + 1).last() == records@[i as int]);
            assert(out@ =~= spec_records(records@.take(i + 1)));
        }
        i = i + 1;
    }
    proof {
        assert(records@.take(n as int) =~= records@);
    }
    out
}

/// The numeric value of a run of decimal digit bytes.
pub open spec fn dec_val(s: Seq<u8>) -> int
    decreases s.len(),
{
    if s.len() == 0 {
        0
    } else {
        dec_val(s.drop_last()) * 10 + (s.last() - 48)
    }
}

/// The digits of `n` are a non-empty run of digit bytes valued `n`.
proof fn lemma_u64_dec_props(n: nat)
    ensures
        spec_u64_dec(n).len() >= 1,
        forall|j: int| 0 <= j < spec_u64_dec(n).len() ==> 48 <= #[trigger] spec_u64_dec(n)[j]
            <= 57,
        dec_val(spec_u64_dec(n)) == n,
    decreases n,
{
    if n < 10 {
        let d = spec_u64_dec(n);
        assert(d.drop_last() =~= Seq::<u8>::empty());
        assert(d.last() == (48 + n) as u8);
        assert((48 + n) as u8 == 48 + n);
        assert(dec_val(d) == dec_val(Seq::<u8>::empty()) * 10 + ((48 + n) as u8 - 48));
    } else {
        lemma_u64_dec_props(n / 10);
        let d = spec_u64_dec(n);
        assert(d.drop_last() =~= spec_u64_dec(n / 10));
        assert(d.last() == (48 + n % 10) as u8);
        assert(dec_val(d) == (n / 10) * 10 + n % 10);
    }
}

/// A run of digit bytes has a non-negative value.
proof fn lemma_dec_val_nonneg(s: Seq<u8>)
    requires
        forall|t: int| 0 <= t < s.len() ==> 48 <= #[trigger] s[t] <= 57,
    ensures
        dec_val(s) >= 0,
    decreases s.len(),
{
    if s.len() > 0 {
        assert(forall|t: int|
            0 <= t < s.drop_last().len() ==> 48 <= #[trigger] s.drop_last()[t] <= 57);
        lemma_dec_val_nonneg(s.drop_last());
    }
}

/// A digit-run prefix never exceeds the whole run's value.
proof fn lemma_dec_val_prefix(s: Seq<u8>, j: int)
    requires
        0 <= j <= s.len(),
        forall|t: int| 0 <= t < s.len() ==> 48 <= #[trigger] s[t] <= 57,
    ensures
        0 <= dec_val(s.take(j)) <= dec_val(s),
    decreases s.len() - j,
{
    assert(forall|t: int| 0 <= t < s.take(j).len() ==> 48 <= #[trigger] s.take(j)[t] <= 57);
    lemma_dec_val_nonneg(s.take(j));
    if j == s.len() {
        assert(s.take(j) =~= s);
    } else {
        lemma_dec_val_prefix(s, j + 1);
        assert(s.take(j + 1).drop_last() =~= s.take(j));
        assert(s.take(j + 1).last() == s[j]);
        assert(dec_val(s.take(j + 1)) == dec_val(s.take(j)) * 10 + (s[j] - 48));
    }
}

/// The magnitude a canonical milli field prints.
pub open spec fn milli_mag(x: i64) -> int {
    if x >= 0 {
        x as int
    } else {
        -(x as int)
    }
}

/// The integer-part digit run of a canonical milli field.
pub open spec fn milli_digits(x: i64) -> Seq<u8> {
    spec_u64_dec((milli_mag(x) / 1000) as nat)
}

/// One for a printed minus sign, zero otherwise.
pub open spec fn milli_slen(x: i64) -> int {
    if x < 0 {
        1int
    } else {
        0int
    }
}

/// The byte layout of a canonical milli field: an optional sign, the
/// integer digits, the one dot, three fraction digits, and every byte
/// between the minus sign and the digit nine.
proof fn lemma_milli_layout(field: Seq<u8>, x: i64)
    requires
        field == spec_milli(x as int),
    ensures
        field.len() == milli_slen(x) + milli_digits(x).len() + 4,
        milli_digits(x).len() >= 1,
        dec_val(milli_digits(x)) == milli_mag(x) / 1000,
        forall|j: int| 0 <= j < milli_digits(x).len() ==> 48 <= #[trigger] milli_digits(x)[j]
            <= 57,
        forall|j: int| 0 <= j < milli_digits(x).len() ==> field[milli_slen(x) + j] == (
        #[trigger] milli_digits(x)[j]),
        field[milli_slen(x) + milli_digits(x).len()] == 46,
        forall|j: int|
            0 <= j < field.len() && j != milli_slen(x) + milli_digits(x).len() ==> (
            #[trigger] field[j]) != 46,
        x < 0 ==> field[0] == 45,
        x >= 0 ==> 48 <= field[0] <= 57,
        field[milli_slen(x) + milli_digits(x).len() + 1] == 48 + (milli_mag(x) % 1000) / 100,
        field[milli_slen(x) + milli_digits(x).len() + 2] == 48 + (milli_mag(x) % 100) / 10,
        field[milli_slen(x) + milli_digits(x).len() + 3] == 48 + milli_mag(x) % 10,
        forall|j: int| 0 <= j < field.len() ==> 45 <= (#[trigger] field[j]) <= 57,
{
    let m = milli_mag(x);
    lemma_u64_dec_props((m / 1000) as nat);
    let digs = milli_digits(x);
    let slen = milli_slen(x);
    let sign: Seq<u8> = if (x as int) < 0 {
        seq![45u8]
    } else {
        Seq::empty()
    };
    let fr: Seq<u8> = seq![
        (48 + (m % 1000) / 100) as u8,
        (48 + (m % 100) / 10) as u8,
        (48 + m % 10) as u8,
    ];
    assert(field =~= sign + digs + seq![46u8] + fr);
    assert(sign.len() == slen);
    assert(field.len() == slen + digs.len() + 4);
    assert forall|j: int| 0 <= j < digs.len() implies field[slen + j] == (
    #[trigger] digs[j]) by {
        assert(field[slen + j] == (sign + digs)[slen + j]);
    }
    assert(field[slen + digs.len()] == 46);
    assert(field[slen + digs.len() + 1] == fr[0]);
    assert(field[slen + digs.len() + 2] == fr[1]);
    assert(field[slen + digs.len() + 3] == fr[2]);
    assert(0 <= m % 1000 < 1000 && 0 <= m % 100 < 100 && 0 <= m % 10 < 10);
    assert forall|j: int| 0 <= j < field.len() implies 45 <= (#[trigger] field[j]) <= 57 by {
        if j < slen {
            assert(field[j] == 45);
        } else if j < slen + digs.len() {
            assert(field[j] == digs[j - slen]);
        } else if j == slen + digs.len() {
            assert(field[j] == 46);
        } else {
            assert(field[j] == fr[j - slen - digs.len() - 1]);
        }
    }
    assert forall|j: int|
        0 <= j < field.len() && j != slen + digs.len() implies (#[trigger] field[j]) != 46 by {
        if j < slen {
            assert(field[j] == 45);
        } else if j < slen + digs.len() {
            assert(field[j] == digs[j - slen]);
        } else {
            assert(field[j] == fr[j - slen - digs.len() - 1]);
            assert(48 <= fr[j - slen - digs.len() - 1] <= 57);
        }
    }
}

/// First occurrence of `target` in `content[from..to]`, if any.
fn find_byte(content: &[u8], from: usize, to: usize, target: u8) -> (r: (usize, bool))
    requires
        from <= to <= content@.len(),
    ensures
        r.1 ==> from <= r.0 < to && content@[r.0 as int] == target && (forall|t: int|
            from <= t < r.0 ==> (#[trigger] content@[t]) != target),
        !r.1 ==> forall|t: int| from <= t < to ==> (#[trigger] content@[t]) != target,
{
    let mut i: usize = from;
    while i < to
        invariant
            from <= i <= to <= content@.len(),
            forall|t: int| from <= t < i ==> (#[trigger] content@[t]) != target,
        decreases to - i,
    {
        if content[i] == target {
            return (i, true);
        }
        i = i + 1;
    }
    (0, false)
}

/// Reads the milli field at `content[from..to]`.  On the canonical
/// shape `spec_milli` produces it recovers the value exactly; any
/// other accepted shape is caught by the caller's re-serialization
/// comparison.
fn scan_milli(content: &[u8], from: usize, to: usize) -> (r: Option<i64>)
    requires
        from <= to <= content@.len(),
    ensures
        (exists|x: i64| content@.subrange(from as int, to as int) == spec_milli(x as int)) ==> (
        r matches Some(x) && content@.subrange(from as int, to as int) == spec_milli(x as int)),
{
    let ghost field = content@.subrange(from as int, to as int);
    let ghost canonical = exists|x: i64| field == spec_milli(x as int);
    let ghost x0: i64 = if canonical {
        choose|x: i64| field == spec_milli(x as int)
    } else {
        0
    };
    proof {
        if canonical {
            lemma_milli_layout(field, x0);
        }
    }
    if to - from == 0 {
        proof {
            if canonical {
                assert(false);
            }
        }
        return None;
    }
    let neg: bool = content[from] == 45;
    let dstart: usize = if neg {
        from + 1
    } else {
        from
    };
    proof {
        if canonical {
            assert(field[0] == content@[from as int]);
            assert(neg == (x0 < 0));
            assert(dstart - from == milli_slen(x0));
        }
    }
    let (dot, dfound) = find_byte(content, from, to, 46);
    if !dfound {
        proof {
            if canonical {
                assert(content@[from as int + milli_slen(x0) + milli_digits(x0).len()] == field[
                    milli_slen(x0) + milli_digits(x0).len()
                ]);
                assert(false);
            }
        }
        return None;
    }
    proof {
        if canonical {
            // The first dot of the field is its one dot.
            let dpos = from + milli_slen(x0) + milli_digits(x0).len();
            assert(content@[dpos as int] == field[milli_slen(x0) + milli_digits(x0).len()]);
            if (dot as int) < dpos {
                assert(content@[dot as int] == field[dot - from]);
                assert(false);
            }
            if (dot as int) > dpos {
                assert(false);
            }
            assert(dot as int == dpos);
        }
    }
    if dot <= dstart {
        proof {
            if canonical {
                assert(false);
            }
        }
        return None;
    }
    if to - dot != 4 {
        proof {
            if canonical {
                assert(false);
            }
        }
        return None;
    }
    let mut int_part: i128 = 0;
    let mut i: usize = dstart;
    while i < dot
        invariant
            from <= dstart <= i <= dot < to <= content@.len(),
            0 <= int_part <= 200_000_000_000_000_000,
            field == content@.subrange(from as int, to as int),
            canonical == (exists|x: i64| field == spec_milli(x as int)),
            canonical ==> field == spec_milli(x0 as int),
            canonical ==> dstart - from == milli_slen(x0) && dot - from == milli_slen(x0)
                + milli_digits(x0).len(),
            canonical ==> int_part == dec_val(milli_digits(x0).take(i - dstart)),
        decreases dot - i,
    {
        proof {
            if canonical {
                lemma_milli_layout(field, x0);
                assert(content@[i as int] == field[i - from]);
                assert(field[i - from] == milli_digits(x0)[i - dstart]);
            }
        }
        let c: u8 = content[i];
        if c < 48 || c > 57 {
            proof {
                if canonical {
                    assert(false);
                }
            }
            return None;
        }
        if int_part > 10_000_000_000_000_000 {
            proof {
                if canonical {
                    lemma_milli_layout(field, x0);
                    lemma_dec_val_prefix(milli_digits(x0), i - dstart);
                    assert(false);
                }
            }
            return None;
        }
        proof {
            if canonical {
                let d = milli_digits(x0);
                let p: int = i - dstart;
                assert(d.take(p + 1).drop_last() =~= d.take(p));
                assert(d.take(p + 1).last() == d[p]);
            }
        }
        int_part = int_part * 10 + ((c - 48) as i128);
        i = i + 1;
    }
    proof {
        if canonical {
            lemma_milli_layout(field, x0);
            assert(milli_digits(x0).take(dot - dstart) =~= milli_digits(x0));
            assert(int_part == milli_mag(x0) / 1000);
        }
    }
    let f1: u8 = content[dot + 1];
    let f2: u8 = content[dot + 2];
    let f3: u8 = content[dot + 3];
    proof {
        if canonical {
            assert(f1 == field[milli_slen(x0) + milli_digits(x0).len() + 1]);
            assert(f2 == field[milli_slen(x0) + milli_digits(x0).len() + 2]);
            assert(f3 == field[milli_slen(x0) + milli_digits(x0).len() + 3]);
        }
    }
    if f1 < 48 || f1 > 57 || f2 < 48 || f2 > 57 || f3 < 48 || f3 > 57 {
        proof {
            if canonical {
                assert(false);
            }
        }
        return None;
    }
    let frac: i128 = ((f1 - 48) as i128) * 100 + ((f2 - 48) as i128) * 10 + ((f3 - 48) as i128);
    let v: i128 = int_part * 1000 + frac;
    proof {
        if canonical {
            let m = milli_mag(x0);
            assert((m % 1000) % 100 == m % 100) by (nonlinear_arith)
                requires
                    m >= 0,
            ;
            assert((m % 100) % 10 == m % 10) by (nonlinear_arith)
                requires
                    m >= 0,
            ;
            assert(frac == m % 1000);
            assert(v == m);
        }
    }
    if neg {
        if v > 9_223_372_036_854_775_808i128 {
            proof {
                if canonical {
                    assert(false);
                }
            }
            return None;
        }
        proof {
            if canonical {
                assert(-v == x0 as int);
            }
        }
        Some((-v) as i64)
    } else {
        if v > 9_223_372_036_854_775_807i128 {
            proof {
                if canonical {
                    assert(false);
                }
            }
            return None;
        }
        proof {
            if canonical {
                assert(v == x0 as int);
            }
        }
        Some(v as i64)
    }
}

/// Serializing one more sample appends exactly its line.
proof fn lemma_txt_segment(v: Seq<Sample>, k: int)
    requires
        0 <= k < v.len(),
    ensures
        spec_txt(v.take(k + 1)) == spec_txt(v.take(k)) + spec_txt_line(
            v[k].wavelength as int,
            v[k].power as int,
        ),
{
    assert(v.take(k + 1).drop_last() =~= v.take(k));
    assert(v.take(k + 1).last() == v[k]);
}

/// A serialized prefix of the samples is a byte prefix of the whole
/// serialization.
proof fn lemma_txt_prefix(v: Seq<Sample>, k: int)
    requires
        0 <= k <= v.len(),
    ensures
        spec_txt(v.take(k)).len() <= spec_txt(v).len(),
        spec_txt(v).take(spec_txt(v.take(k)).len() as int) == spec_txt(v.take(k)),
    decreases v.len() - k,
{
    if k == v.len() {
        assert(v.take(k) =~= v);
        assert(spec_txt(v).take(spec_txt(v).len() as int) =~= spec_txt(v));
    } else {
        lemma_txt_prefix(v, k + 1);
        lemma_txt_segment(v, k);
        let a = spec_txt(v.take(k));
        let b = spec_txt(v.take(k + 1));
        assert(spec_txt(v).take(a.len() as int) =~= b.take(a.len() as int));
        assert(b.take(a.len() as int) =~= a);
    }
}/// A canonical sample line for the pair `(a, b)` sits at offset `ls`.
pub open spec fn txt_line_at(content: Seq<u8>, ls: int, a: i64, b: i64) -> bool {
    let ll = spec_txt_line(a as int, b as int);
    &&& 0 <= ls
    &&& ls + ll.len() <= content.len()
    &&& content.subrange(ls, ls + ll.len()) == ll
}

/// The byte facts of a canonical sample line at `ls`: the field runs,
/// the one separator, and the one newline that closes it.
#[verifier::rlimit(100)]
proof fn lemma_line_bytes(content: Seq<u8>, ls: int, a: i64, b: i64)
    requires
        txt_line_at(content, ls, a, b),
    ensures
        ({
            let la = spec_milli(a as int);
            let lb = spec_milli(b as int);
            let ll = spec_txt_line(a as int, b as int);
            &&& ll.len() == la.len() + lb.len() + 2
            &&& la.len() >= 5
            &&& lb.len() >= 5
            &&& (forall|j: int| 0 <= j < ll.len() - 1 ==> (#[trigger] content[ls + j]) != 10)
            &&& content[ls + ll.len() - 1] == 10
            &&& (forall|j: int| 0 <= j < la.len() ==> (#[trigger] content[ls + j]) != 59)
            &&& content[ls + la.len()] == 59
            &&& content.subrange(ls, ls + la.len()) == la
            &&& content.subrange(ls + la.len() + 1, ls + ll.len() - 1) == lb
        }),
{
    let la = spec_milli(a as int);
    let lb = spec_milli(b as int);
    let ll = spec_txt_line(a as int, b as int);
    lemma_milli_layout(la, a);
    lemma_milli_layout(lb, b);
    assert(forall|j: int| 0 <= j < ll.len() ==> (#[trigger] content[ls + j]) == ll[j]);
    assert(forall|j: int| 0 <= j < la.len() ==> (#[trigger] ll[j]) == la[j]);
    assert(ll[la.len() as int] == 59);
    assert(forall|j: int| 0 <= j < lb.len() ==> (#[trigger] ll[la.len() + 1 + j]) == lb[j]);
    assert(ll[ll.len() - 1] == 10);
    assert forall|j: int| 0 <= j < ll.len() - 1 implies (#[trigger] content[ls + j]) != 10 by {
        if j < la.len() {
            assert(ll[j] == la[j] && 45 <= la[j] <= 57);
        } else if j == la.len() {
            assert(ll[j] == 59);
        } else {
            assert(ll[j] == lb[j - la.len() - 1] && 45 <= lb[j - la.len() - 1] <= 57);
        }
    }
    assert forall|j: int| 0 <= j < la.len() implies (#[trigger] content[ls + j]) != 59 by {
        assert(ll[j] == la[j] && 45 <= la[j] <= 57);
    }
    assert forall|j: int| 0 <= j < la.len() implies content.subrange(ls, ls + la.len())[j]
        == la[j] by {
        assert(content.subrange(ls, ls + la.len())[j] == content[ls + j]);
        assert(content[ls + j] == ll[j]);
        assert(ll[j] == la[j]);
    }
    assert(content.subrange(ls, ls + la.len()) =~= la);
    assert forall|j: int|
        0 <= j < lb.len() implies content.subrange(ls + la.len() + 1, ls + ll.len() - 1)[j]
        == lb[j] by {
        assert(content.subrange(ls + la.len() + 1, ls + ll.len() - 1)[j] == content[ls + la.len()
            + 1 + j]);
        assert(content[ls + la.len() + 1 + j] == ll[la.len() + 1 + j]);
        assert(ll[la.len() + 1 + j] == lb[j]);
    }
    assert(content.subrange(ls + la.len() + 1, ls + ll.len() - 1) =~= lb);
}

/// Inside canonical content, the bytes after the serialized prefix of
/// `k` samples are exactly sample `k`'s line.
proof fn lemma_txt_next_line(content: Seq<u8>, v: Seq<Sample>, k: int, ls: int)
    requires
        content == spec_txt(v),
        0 <= k < v.len(),
        ls == spec_txt(v.take(k)).len(),
    ensures
        txt_line_at(content, ls, v[k].wavelength, v[k].power),
        ls < content.len(),
        spec_txt(v.take(k + 1)).len() == ls + spec_txt_line(
            v[k].wavelength as int,
            v[k].power as int,
        ).len(),
{
    let ll = spec_txt_line(v[k].wavelength as int, v[k].power as int);
    lemma_txt_segment(v, k);
    lemma_txt_prefix(v, k);
    lemma_txt_prefix(v, k + 1);
    lemma_milli_layout(spec_milli(v[k].wavelength as int), v[k].wavelength);
    let nxt = ls + ll.len();
    assert(spec_txt(v.take(k + 1)).len() == nxt);
    assert forall|j: int| 0 <= j < ll.len() implies content[ls + j] == (#[trigger] ll[j]) by {
        assert(spec_txt(v).take(nxt as int)[ls + j] == spec_txt(v)[ls + j]);
        assert(spec_txt(v.take(k + 1))[ls + j] == ll[j]);
    }
    assert(content.subrange(ls, nxt) =~= ll);
}

/// Consuming one serialized line extends the parsed prefix by one
/// sample.
proof fn lemma_txt_step(content: Seq<u8>, out0: Seq<Sample>, s: Sample, ls: int, nxt: int)
    requires
        spec_txt(out0) == content.take(ls),
        0 <= ls <= nxt <= content.len(),
        content.subrange(ls, nxt) == spec_txt_line(s.wavelength as int, s.power as int),
    ensures
        spec_txt(out0.push(s)) == content.take(nxt),
{
    assert(out0.push(s).drop_last() =~= out0);
    assert(out0.push(s).last() == s);
    assert(content.take(nxt) =~= content.take(ls) + content.subrange(ls, nxt));
}

/// Whether `content[from..to]` equals `expected`, byte for byte.
fn range_equal(content: &[u8], from: usize, to: usize, expected: &Vec<u8>) -> (r: bool)
    requires
        from <= to <= content@.len(),
    ensures
        r <==> content@.subrange(from as int, to as int) =~= expected@,
{
    if to - from != expected.len() {
        return false;
    }
    let mut i: usize = from;
    while i < to
        invariant
            from <= i <= to <= content@.len(),
            to - from == expected@.len(),
            forall|k: int| from <= k < i ==> (#[trigger] content@[k]) == expected@[k - from],
        decreases to - i,
    {
        if content[i] != expected[i - from] {
            return false;
        }
        i = i + 1;
    }
    true
}

/// Reads one sample line starting at `ls`: two milli fields around a
/// semicolon, closed by the first newline.  A returned line is checked
/// by re-serialization, so it is canonical byte for byte; and where a
/// canonical line sits at `ls`, reading cannot fail.
#[verifier::rlimit(100)]
fn scan_line(content: &[u8], ls: usize) -> (r: Option<(Sample, usize)>)
    requires
        ls < content@.len(),
    ensures
        r matches Some((s, next)) ==> ls < next <= content@.len() && content@[next - 1] == 10 && (
        forall|t: int| ls <= t < next - 1 ==> (#[trigger] content@[t]) != 10)
            && content@.subrange(ls as int, next as int) == spec_txt_line(
            s.wavelength as int,
            s.power as int,
        ),
        (exists|a: i64, b: i64| txt_line_at(content@, ls as int, a, b)) ==> r is Some,
{
    let ghost canonical = exists|a: i64, b: i64| txt_line_at(content@, ls as int, a, b);
    let ghost (a0, b0): (i64, i64) = if canonical {
        choose|a: i64, b: i64| txt_line_at(content@, ls as int, a, b)
    } else {
        (0i64, 0i64)
    };
    let ghost la = spec_milli(a0 as int);
    let ghost lb = spec_milli(b0 as int);
    let ghost ll = spec_txt_line(a0 as int, b0 as int);
    proof {
        if canonical {
            lemma_line_bytes(content@, ls as int, a0, b0);
        }
    }
    let n: usize = content.len();
    let (nl, nfound) = find_byte(content, ls, n, 10);
    if !nfound {
        proof {
            if canonical {
                assert(content@[ls + ll.len() - 1] == 10);
                assert(false);
            }
        }
        return None;
    }
    proof {
        if canonical {
            if (nl as int) < ls + ll.len() - 1 {
                assert(content@[ls + (nl - ls)] != 10);
                assert(false);
            }
            if (nl as int) > ls + ll.len() - 1 {
                assert(content@[ls + (ll.len() - 1)] == 10);
                assert(false);
            }
        }
    }
    let (sep, sfound) = find_byte(content, ls, nl, 59);
    if !sfound {
        proof {
            if canonical {
                assert(content@[ls + la.len()] == 59);
                assert(false);
            }
        }
        return None;
    }
    proof {
        if canonical {
            if (sep as int) < ls + la.len() {
                assert(content@[ls + (sep - ls)] != 59);
                assert(false);
            }
            if (sep as int) > ls + la.len() {
                assert(content@[ls + la.len()] == 59);
                assert(false);
            }
        }
    }
    let wl: i64 = match scan_milli(content, ls, sep) {
        Some(x) => x,
        None => {
            proof {
                if canonical {
                    assert(content@.subrange(ls as int, sep as int) == la);
                    assert(false);
                }
            }
            return None;
        },
    };
    let pw: i64 = match scan_milli(content, sep + 1, nl) {
        Some(x) => x,
        None => {
            proof {
                if canonical {
                    assert(content@.subrange(sep as int + 1, nl as int) == lb);
                    assert(false);
                }
            }
            return None;
        },
    };
    let mut expected: Vec<u8> = Vec::new();
    push_milli(&mut expected, wl);
    expected.push(59);
    push_milli(&mut expected, pw);
    expected.push(10);
    proof {
        assert(expected@ =~= spec_txt_line(wl as int, pw as int));
    }
    if !range_equal(content, ls, nl + 1, &expected) {
        proof {
            if canonical {
                assert(content@.subrange(ls as int, sep as int) == spec_milli(wl as int));
                assert(content@.subrange(sep as int + 1, nl as int) == spec_milli(pw as int));
                assert(spec_txt_line(wl as int, pw as int) =~= content@.subrange(
                    ls as int,
                    nl + 1,
                ));
                assert(false);
            }
        }
        return None;
    }
    Some((Sample { wavelength: wl, power: pw }, nl + 1))
}

/// Reads the delimited-text lines of `content`: the samples of any
/// accepted content re-serialize to the very same bytes, and canonical
/// content is always accepted.
fn scan_pairs(content: &[u8]) -> (r: Option<Vec<Sample>>)
    ensures
        r matches Some(c) ==> spec_txt(c@) == content@,
        (exists|v: Seq<Sample>| content@ == spec_txt(v)) ==> r is Some,
{
    let ghost canonical = exists|v: Seq<Sample>| content@ == spec_txt(v);
    let ghost v0: Seq<Sample> = if canonical {
        choose|v: Seq<Sample>| content@ == spec_txt(v)
    } else {
        Seq::empty()
    };
    let n: usize = content.len();
    let mut out: Vec<Sample> = Vec::new();
    let mut line_start: usize = 0;
    let ghost mut done: int = 0;
    proof {
        if canonical {
            assert(v0.take(0) =~= Seq::<Sample>::empty());
        }
        assert(content@.take(0) =~= Seq::<u8>::empty());
    }
    while line_start < n
        invariant
            n == content@.len(),
            line_start <= n,
            spec_txt(out@) == content@.take(line_start as int),
            canonical == (exists|v: Seq<Sample>| content@ == spec_txt(v)),
            canonical ==> content@ == spec_txt(v0),
            canonical ==> 0 <= done <= v0.len(),
            canonical ==> line_start == spec_txt(v0.take(done)).len(),
        decreases n - line_start,
    {
        proof {
            if canonical {
                if done == v0.len() {
                    assert(v0.take(done) =~= v0);
                    assert(false);
                }
                lemma_txt_next_line(content@, v0, done, line_start as int);
                lemma_line_bytes(content@, line_start as int, v0[done].wavelength, v0[done].power);
            }
        }
        match scan_line(content, line_start) {
            Some((s, next)) => {
                let ghost out0 = out@;
                out.push(s);
                proof {
                    lemma_txt_step(content@, out0, s, line_start as int, next as int);
                    if canonical {
                        // The first newline after the prefix closes
                        // sample `done`'s line, so the positions agree.
                        let ll = spec_txt_line(
                            v0[done].wavelength as int,
                            v0[done].power as int,
                        );
                        if (next as int) < line_start + ll.len() {
                            assert(content@[line_start + ll.len() - 1] == 10);
                            assert(content@[next - 1] == 10);
                            assert(content@[line_start + (next - 1 - line_start)] != 10);
                            assert(false);
                        }
                        if (next as int) > line_start + ll.len() {
                            assert(content@[line_start + (ll.len() - 1)] == 10);
                            assert(false);
                        }
                        done = done + 1;
                    }
                }
                line_start = next;
            },
            None => {
                proof {
                    if canonical {
                        assert(txt_line_at(
                            content@,
                            line_start as int,
                            v0[done].wavelength,
                            v0[done].power,
                        ));
                        assert(false);
                    }
                }
                return None;
            },
        }
    }
    proof {
        assert(content@.take(n as int) =~= content@);
    }
    Some(out)
}

/// Re-imports a delimited-text spectrum file.  Success is owed exactly
/// on canonical content — the byte-for-byte serialization of some
/// sample sequence, which is what the exporters here write — and then
/// the returned samples re-serialize to the very input; everything
/// else, the looser float text included, is rejected as `Config`.
pub fn read_txt(content: &[u8]) -> (r: Result<Vec<Sample>, CoreError>)
    ensures
        r is Ok <==> exists|v: Seq<Sample>| content@ == spec_txt(v),
        r matches Ok(v) ==> content@ == spec_txt(v@),
        r matches Err(e) ==> e == CoreError::Config,
{
    match scan_pairs(content) {
        Some(v) => {
            proof {
                assert(content@ == spec_txt(v@));
            }
            Ok(v)
        },
        None => Err(CoreError::Config),
    }
}

/// Serializing one more record appends exactly its line.
proof fn lemma_records_segment(v: Seq<Record>, k: int)
    requires
        0 <= k < v.len(),
    ensures
        spec_records(v.take(k + 1)) == spec_records(v.take(k)) + spec_record_line(v[k]),
{
    assert(v.take(k + 1).drop_last() =~= v.take(k));
    assert(v.take(k + 1).last() == v[k]);
}

/// A serialized prefix of the records is a byte prefix of the whole
/// file, the header included.
proof fn lemma_records_prefix(v: Seq<Record>, k: int)
    requires
        0 <= k <= v.len(),
    ensures
        spec_records(v.take(k)).len() <= spec_records(v).len(),
        spec_records(v).take(spec_records(v.take(k)).len() as int) == spec_records(v.take(k)),
    decreases v.len() - k,
{
    if k == v.len() {
        assert(v.take(k) =~= v);
        assert(spec_records(v).take(spec_records(v).len() as int) =~= spec_records(v));
    } else {
        lemma_records_prefix(v, k + 1);
        lemma_records_segment(v, k);
        let a = spec_records(v.take(k));
        let b = spec_records(v.take(k + 1));
        assert(spec_records(v).take(a.len() as int) =~= b.take(a.len() as int));
        assert(b.take(a.len() as int) =~= a);
    }
}

/// The header facts of canonical record content: twelve bytes, closed
/// by the file's first newline.
proof fn lemma_records_header(content: Seq<u8>, v: Seq<Record>)
    requires
        content == spec_records(v),
    ensures
        content.len() >= 12,
        forall|j: int| 0 <= j < 11 ==> (#[trigger] content[j]) != 10,
        content[11] == 10,
        spec_records(v.take(0)).len() == 12,
        content.take(12) == spec_record_header(),
{
    lemma_records_prefix(v, 0);
    assert(v.take(0) =~= Seq::<Record>::empty());
    assert forall|j: int| 0 <= j < 11 implies (#[trigger] content[j]) != 10 by {
        assert(content[j] == content.take(12)[j]);
        assert(spec_record_header()[j] != 10);
    }
    assert(content[11] == content.take(12)[11]);
}

/// A canonical record line for `rec` sits at offset `ls`.
pub open spec fn record_line_at(content: Seq<u8>, ls: int, rec: Record) -> bool {
    let ll = spec_record_line(rec);
    &&& 0 <= ls
    &&& ls + ll.len() <= content.len()
    &&& content.subrange(ls, ls + ll.len()) == ll
}

/// The byte facts of a canonical record line at `ls`: the four field
/// runs, the three commas, and the one newline that closes it.
#[verifier::rlimit(100)]
proof fn lemma_record_bytes(content: Seq<u8>, ls: int, rec: Record)
    requires
        record_line_at(content, ls, rec),
    ensures
        ({
            let fa = spec_milli(rec.a as int);
            let fb = spec_milli(rec.x0 as int);
            let fc = spec_milli(rec.w as int);
            let fd = spec_milli(rec.bias as int);
            let ll = spec_record_line(rec);
            let p1 = fa.len() as int;
            let p2 = p1 + 1 + fb.len();
            let p3 = p2 + 1 + fc.len();
            &&& ll.len() == p3 + 1 + fd.len() + 1
            &&& fa.len() >= 5
            &&& fb.len() >= 5
            &&& fc.len() >= 5
            &&& fd.len() >= 5
            &&& (forall|j: int| 0 <= j < ll.len() - 1 ==> (#[trigger] content[ls + j]) != 10)
            &&& content[ls + ll.len() - 1] == 10
            &&& (forall|j: int| 0 <= j < p1 ==> (#[trigger] content[ls + j]) != 44)
            &&& content[ls + p1] == 44
            &&& (forall|j: int| p1 < j < p2 ==> (#[trigger] content[ls + j]) != 44)
            &&& content[ls + p2] == 44
            &&& (forall|j: int| p2 < j < p3 ==> (#[trigger] content[ls + j]) != 44)
            &&& content[ls + p3] == 44
        }),
{
    let fa = spec_milli(rec.a as int);
    let fb = spec_milli(rec.x0 as int);
    let fc = spec_milli(rec.w as int);
    let fd = spec_milli(rec.bias as int);
    let ll = spec_record_line(rec);
    let p1 = fa.len() as int;
    let p2 = p1 + 1 + fb.len();
    let p3 = p2 + 1 + fc.len();
    lemma_milli_layout(fa, rec.a);
    lemma_milli_layout(fb, rec.x0);
    lemma_milli_layout(fc, rec.w);
    lemma_milli_layout(fd, rec.bias);
    assert(forall|j: int| 0 <= j < ll.len() ==> (#[trigger] content[ls + j]) == ll[j]);
    assert(forall|j: int| 0 <= j < p1 ==> (#[trigger] ll[j]) == fa[j]);
    assert(ll[p1] == 44);
    assert(forall|j: int| 0 <= j < fb.len() ==> (#[trigger] ll[p1 + 1 + j]) == fb[j]);
    assert(ll[p2] == 44);
    assert(forall|j: int| 0 <= j < fc.len() ==> (#[trigger] ll[p2 + 1 + j]) == fc[j]);
    assert(ll[p3] == 44);
    assert(forall|j: int| 0 <= j < fd.len() ==> (#[trigger] ll[p3 + 1 + j]) == fd[j]);
    assert(ll[ll.len() - 1] == 10);
    assert forall|j: int| 0 <= j < ll.len() - 1 implies (#[trigger] content[ls + j]) != 10 by {
        if j < p1 {
            assert(ll[j] == fa[j] && 45 <= fa[j] <= 57);
        } else if j == p1 || j == p2 || j == p3 {
            assert(ll[j] == 44);
        } else if j < p2 {
            assert(ll[j] == fb[j - p1 - 1] && 45 <= fb[j - p1 - 1] <= 57);
        } else if j < p3 {
            assert(ll[j] == fc[j - p2 - 1] && 45 <= fc[j - p2 - 1] <= 57);
        } else {
            assert(ll[j] == fd[j - p3 - 1] && 45 <= fd[j - p3 - 1] <= 57);
        }
    }
    assert forall|j: int| 0 <= j < p1 implies (#[trigger] content[ls + j]) != 44 by {
        assert(ll[j] == fa[j] && 45 <= fa[j] <= 57);
    }
    assert forall|j: int| p1 < j < p2 implies (#[trigger] content[ls + j]) != 44 by {
        assert(ll[j] == fb[j - p1 - 1] && 45 <= fb[j - p1 - 1] <= 57);
    }
    assert forall|j: int| p2 < j < p3 implies (#[trigger] content[ls + j]) != 44 by {
        assert(ll[j] == fc[j - p2 - 1] && 45 <= fc[j - p2 - 1] <= 57);
    }
}

/// The four field runs of a canonical record line at `ls`.
#[verifier::rlimit(100)]
proof fn lemma_record_fields(content: Seq<u8>, ls: int, rec: Record)
    requires
        record_line_at(content, ls, rec),
    ensures
        ({
            let fa = spec_milli(rec.a as int);
            let fb = spec_milli(rec.x0 as int);
            let fc = spec_milli(rec.w as int);
            let fd = spec_milli(rec.bias as int);
            let ll = spec_record_line(rec);
            let p1 = fa.len() as int;
            let p2 = p1 + 1 + fb.len();
            let p3 = p2 + 1 + fc.len();
            &&& content.subrange(ls, ls + p1) == fa
            &&& content.subrange(ls + p1 + 1, ls + p2) == fb
            &&& content.subrange(ls + p2 + 1, ls + p3) == fc
            &&& content.subrange(ls + p3 + 1, ls + ll.len() - 1) == fd
        }),
{
    let fa = spec_milli(rec.a as int);
    let fb = spec_milli(rec.x0 as int);
    let fc = spec_milli(rec.w as int);
    let fd = spec_milli(rec.bias as int);
    let ll = spec_record_line(rec);
    let p1 = fa.len() as int;
    let p2 = p1 + 1 + fb.len();
    let p3 = p2 + 1 + fc.len();
    assert(forall|j: int| 0 <= j < ll.len() ==> (#[trigger] content[ls + j]) == ll[j]);
    assert(forall|j: int| 0 <= j < p1 ==> (#[trigger] ll[j]) == fa[j]);
    assert(forall|j: int| 0 <= j < fb.len() ==> (#[trigger] ll[p1 + 1 + j]) == fb[j]);
    assert(forall|j: int| 0 <= j < fc.len() ==> (#[trigger] ll[p2 + 1 + j]) == fc[j]);
    assert(forall|j: int| 0 <= j < fd.len() ==> (#[trigger] ll[p3 + 1 + j]) == fd[j]);
    assert forall|j: int| 0 <= j < p1 implies content.subrange(ls, ls + p1)[j] == fa[j] by {
        assert(content.subrange(ls, ls + p1)[j] == content[ls + j]);
        assert(content[ls + j] == ll[j]);
    }
    assert(content.subrange(ls, ls + p1) =~= fa);
    assert forall|j: int| 0 <= j < fb.len() implies content.subrange(ls + p1 + 1, ls + p2)[j]
        == fb[j] by {
        assert(content.subrange(ls + p1 + 1, ls + p2)[j] == content[ls + p1 + 1 + j]);
        assert(content[ls + p1 + 1 + j] == ll[p1 + 1 + j]);
    }
    assert(content.subrange(ls + p1 + 1, ls + p2) =~= fb);
    assert forall|j: int| 0 <= j < fc.len() implies content.subrange(ls + p2 + 1, ls + p3)[j]
        == fc[j] by {
        assert(content.subrange(ls + p2 + 1, ls + p3)[j] == content[ls + p2 + 1 + j]);
        assert(content[ls + p2 + 1 + j] == ll[p2 + 1 + j]);
    }
    assert(content.subrange(ls + p2 + 1, ls + p3) =~= fc);
    assert forall|j: int|
        0 <= j < fd.len() implies content.subrange(ls + p3 + 1, ls + ll.len() - 1)[j]
        == fd[j] by {
        assert(content.subrange(ls + p3 + 1, ls + ll.len() - 1)[j] == content[ls + p3 + 1 + j]);
        assert(content[ls + p3 + 1 + j] == ll[p3 + 1 + j]);
    }
    assert(content.subrange(ls + p3 + 1, ls + ll.len() - 1) =~= fd);
}

/// Inside canonical record content, the bytes after the serialized
/// prefix of `k` records are exactly record `k`'s line.
proof fn lemma_records_next_line(content: Seq<u8>, v: Seq<Record>, k: int, ls: int)
    requires
        content == spec_records(v),
        0 <= k < v.len(),
        ls == spec_records(v.take(k)).len(),
    ensures
        record_line_at(content, ls, v[k]),
        ls < content.len(),
        spec_records(v.take(k + 1)).len() == ls + spec_record_line(v[k]).len(),
{
    let ll = spec_record_line(v[k]);
    lemma_records_segment(v, k);
    lemma_records_prefix(v, k);
    lemma_records_prefix(v, k + 1);
    lemma_milli_layout(spec_milli(v[k].a as int), v[k].a);
    let nxt = ls + ll.len();
    assert(spec_records(v.take(k + 1)).len() == nxt);
    assert forall|j: int| 0 <= j < ll.len() implies content[ls + j] == (#[trigger] ll[j]) by {
        assert(spec_records(v).take(nxt as int)[ls + j] == spec_records(v)[ls + j]);
        assert(spec_records(v.take(k + 1))[ls + j] == ll[j]);
    }
    assert(content.subrange(ls, nxt) =~= ll);
}

/// Consuming one serialized record line extends the parsed prefix by
/// one record.
proof fn lemma_records_step(content: Seq<u8>, out0: Seq<Record>, rec: Record, ls: int, nxt: int)
    requires
        spec_records(out0) == content.take(ls),
        0 <= ls <= nxt <= content.len(),
        content.subrange(ls, nxt) == spec_record_line(rec),
    ensures
        spec_records(out0.push(rec)) == content.take(nxt),
{
    assert(out0.push(rec).drop_last() =~= out0);
    assert(out0.push(rec).last() == rec);
    assert(content.take(nxt) =~= content.take(ls) + content.subrange(ls, nxt));
}

/// Reads one record line starting at `ls`: four milli fields around
/// three commas, closed by the first newline, checked canonical by
/// re-serialization; where a canonical record line sits at `ls`,
/// reading cannot fail.
#[verifier::rlimit(100)]
fn scan_record_line(content: &[u8], ls: usize) -> (r: Option<(Record, usize)>)
    requires
        ls < content@.len(),
    ensures
        r matches Some((rec, next)) ==> ls < next <= content@.len() && content@[next - 1] == 10
            && (forall|t: int| ls <= t < next - 1 ==> (#[trigger] content@[t]) != 10)
            && content@.subrange(ls as int, next as int) == spec_record_line(rec),
        (exists|rec: Record| record_line_at(content@, ls as int, rec)) ==> r is Some,
{
    let ghost canonical = exists|rec: Record| record_line_at(content@, ls as int, rec);
    let ghost r0: Record = if canonical {
        choose|rec: Record| record_line_at(content@, ls as int, rec)
    } else {
        Record { a: 0, x0: 0, w: 0, bias: 0 }
    };
    let ghost fa = spec_milli(r0.a as int);
    let ghost fb = spec_milli(r0.x0 as int);
    let ghost fc = spec_milli(r0.w as int);
    let ghost fd = spec_milli(r0.bias as int);
    let ghost ll = spec_record_line(r0);
    let ghost p1: int = fa.len() as int;
    let ghost p2: int = p1 + 1 + fb.len();
    let ghost p3: int = p2 + 1 + fc.len();
    proof {
        if canonical {
            lemma_record_bytes(content@, ls as int, r0);
            lemma_record_fields(content@, ls as int, r0);
        }
    }
    let n: usize = content.len();
    let (nl, nfound) = find_byte(content, ls, n, 10);
    if !nfound {
        proof {
            if canonical {
                assert(content@[ls + ll.len() - 1] == 10);
                assert(false);
            }
        }
        return None;
    }
    proof {
        if canonical {
            if (nl as int) < ls + ll.len() - 1 {
                assert(content@[ls + (nl - ls)] != 10);
                assert(false);
            }
            if (nl as int) > ls + ll.len() - 1 {
                assert(content@[ls + (ll.len() - 1)] == 10);
                assert(false);
            }
        }
    }
    let (c1, c1f) = find_byte(content, ls, nl, 44);
    if !c1f {
        proof {
            if canonical {
                assert(content@[ls + p1] == 44);
                assert(false);
            }
        }
        return None;
    }
    proof {
        if canonical {
            if (c1 as int) < ls + p1 {
                assert(content@[ls + (c1 - ls)] != 44);
                assert(false);
            }
            if (c1 as int) > ls + p1 {
                assert(content@[ls + p1] == 44);
                assert(false);
            }
        }
    }
    let (c2, c2f) = find_byte(content, c1 + 1, nl, 44);
    if !c2f {
        proof {
            if canonical {
                assert(content@[ls + p2] == 44);
                assert(false);
            }
        }
        return None;
    }
    proof {
        if canonical {
            if (c2 as int) < ls + p2 {
                assert(content@[ls + (c2 - ls)] != 44);
                assert(false);
            }
            if (c2 as int) > ls + p2 {
                assert(content@[ls + p2] == 44);
                assert(false);
            }
        }
    }
    let (c3, c3f) = find_byte(content, c2 + 1, nl, 44);
    if !c3f {
        proof {
            if canonical {
                assert(content@[ls + p3] == 44);
                assert(false);
            }
        }
        return None;
    }
    proof {
        if canonical {
            if (c3 as int) < ls + p3 {
                assert(content@[ls + (c3 - ls)] != 44);
                assert(false);
            }
            if (c3 as int) > ls + p3 {
                assert(content@[ls + p3] == 44);
                assert(false);
            }
        }
    }
    let va: i64 = match scan_milli(content, ls, c1) {
        Some(x) => x,
        None => {
            proof {
                if canonical {
                    assert(content@.subrange(ls as int, c1 as int) == fa);
                    assert(false);
                }
            }
            return None;
        },
    };
    let vb: i64 = match scan_milli(content, c1 + 1, c2) {
        Some(x) => x,
        None => {
            proof {
                if canonical {
                    assert(content@.subrange(c1 as int + 1, c2 as int) == fb);
                    assert(false);
                }
            }
            return None;
        },
    };
    let vc: i64 = match scan_milli(content, c2 + 1, c3) {
        Some(x) => x,
        None => {
            proof {
                if canonical {
                    assert(content@.subrange(c2 as int + 1, c3 as int) == fc);
                    assert(false);
                }
            }
            return None;
        },
    };
    let vd: i64 = match scan_milli(content, c3 + 1, nl) {
        Some(x) => x,
        None => {
            proof {
                if canonical {
                    assert(content@.subrange(c3 as int + 1, nl as int) == fd);
                    assert(false);
                }
            }
            return None;
        },
    };
    let rec = Record { a: va, x0: vb, w: vc, bias: vd };
    let mut expected: Vec<u8> = Vec::new();
    push_milli(&mut expected, va);
    expected.push(44);
    push_milli(&mut expected, vb);
    expected.push(44);
    push_milli(&mut expected, vc);
    expected.push(44);
    push_milli(&mut expected, vd);
    expected.push(10);
    proof {
        assert(expected@ =~= spec_record_line(rec));
    }
    if !range_equal(content, ls, nl + 1, &expected) {
        proof {
            if canonical {
                assert(content@.subrange(ls as int, c1 as int) == spec_milli(va as int));
                assert(content@.subrange(c1 as int + 1, c2 as int) == spec_milli(vb as int));
                assert(content@.subrange(c2 as int + 1, c3 as int) == spec_milli(vc as int));
                assert(content@.subrange(c3 as int + 1, nl as int) == spec_milli(vd as int));
                assert(spec_record_line(rec) =~= content@.subrange(ls as int, nl + 1));
                assert(false);
            }
        }
        return None;
    }
    Some((rec, nl + 1))
}

/// Reads the header-bearing record lines of `content`: the records of
/// any accepted content re-serialize to the very same bytes, and
/// canonical content is always accepted.
#[verifier::rlimit(100)]
fn scan_records(content: &[u8]) -> (r: Option<Vec<Record>>)
    ensures
        r matches Some(c) ==> spec_records(c@) == content@,
        (exists|v: Seq<Record>| content@ == spec_records(v)) ==> r is Some,
{
    let ghost canonical = exists|v: Seq<Record>| content@ == spec_records(v);
    let ghost v0: Seq<Record> = if canonical {
        choose|v: Seq<Record>| content@ == spec_records(v)
    } else {
        Seq::empty()
    };
    let n: usize = content.len();
    proof {
        if canonical {
            lemma_records_header(content@, v0);
        }
    }
    if n < 12 {
        proof {
            if canonical {
                assert(false);
            }
        }
        return None;
    }
    let mut header: Vec<u8> = Vec::new();
    header.push(97);
    header.push(44);
    header.push(120);
    header.push(48);
    header.push(44);
    header.push(119);
    header.push(44);
    header.push(98);
    header.push(105);
    header.push(97);
    header.push(115);
    header.push(10);
    proof {
        assert(header@ =~= spec_record_header());
    }
    if !range_equal(content, 0, 12, &header) {
        proof {
            if canonical {
                assert(content@.subrange(0, 12) =~= content@.take(12));
                assert(false);
            }
        }
        return None;
    }
    let mut out: Vec<Record> = Vec::new();
    let mut line_start: usize = 12;
    let ghost mut done: int = 0;
    proof {
        if canonical {
            assert(v0.take(0) =~= Seq::<Record>::empty());
        }
        assert(content@.take(12) =~= content@.subrange(0, 12));
        assert(spec_records(out@) == content@.take(12));
    }
    while line_start < n
        invariant
            n == content@.len(),
            line_start <= n,
            spec_records(out@) == content@.take(line_start as int),
            canonical == (exists|v: Seq<Record>| content@ == spec_records(v)),
            canonical ==> content@ == spec_records(v0),
            canonical ==> 0 <= done <= v0.len(),
            canonical ==> line_start == spec_records(v0.take(done)).len(),
        decreases n - line_start,
    {
        proof {
            if canonical {
                if done == v0.len() {
                    assert(v0.take(done) =~= v0);
                    assert(false);
                }
                lemma_records_next_line(content@, v0, done, line_start as int);
                lemma_record_bytes(content@, line_start as int, v0[done]);
            }
        }
        match scan_record_line(content, line_start) {
            Some((rec, next)) => {
                let ghost out0 = out@;
                out.push(rec);
                proof {
                    lemma_records_step(content@, out0, rec, line_start as int, next as int);
                    if canonical {
                        let ll = spec_record_line(v0[done]);
                        if (next as int) < line_start + ll.len() {
                            assert(content@[line_start + ll.len() - 1] == 10);
                            assert(content@[next - 1] == 10);
                            assert(content@[line_start + (next - 1 - line_start)] != 10);
                            assert(false);
                        }
                        if (next as int) > line_start + ll.len() {
                            assert(content@[line_start + (ll.len() - 1)] == 10);
                            assert(false);
                        }
                        done = done + 1;
                    }
                }
                line_start = next;
            },
            None => {
                proof {
                    if canonical {
                        assert(record_line_at(content@, line_start as int, v0[done]));
                        assert(false);
                    }
                }
                return None;
            },
        }
    }
    proof {
        assert(content@.take(n as int) =~= content@);
    }
    Some(out)
}

/// Re-imports a fitted-parameter file.  Success is owed exactly on
/// canonical content — the header line followed by the byte-for-byte
/// serialization of some record sequence — and then the returned
/// records re-serialize to the very input; anything else is rejected
/// as `Config`.
pub fn read_csv(content: &[u8]) -> (r: Result<Vec<Record>, CoreError>)
    ensures
        r is Ok <==> exists|v: Seq<Record>| content@ == spec_records(v),
        r matches Ok(v) ==> content@ == spec_records(v@),
        r matches Err(e) ==> e == CoreError::Config,
{
    match scan_records(content) {
        Some(v) => {
            proof {
                assert(content@ == spec_records(v@));
            }
            Ok(v)
        },
        None => Err(CoreError::Config),
    }
}

} // verus!
