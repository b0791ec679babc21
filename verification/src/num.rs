use vstd::prelude::*;

verus! {

/// A non-negative power of ten.
pub open spec fn pow10(k: nat) -> nat
    decreases k,
{
    if k == 0 {
        1
    } else {
        10 * pow10((k - 1) as nat)
    }
}

pub proof fn lemma_pow10_monotonic(i: nat, j: nat)
    requires
        i <= j,
    ensures
        pow10(i) <= pow10(j),
    decreases j,
{
    if i < j {
        lemma_pow10_monotonic(i, (j - 1) as nat);
    }
}

pub proof fn lemma_pow10_18()
    ensures
        pow10(18) == 1_000_000_000_000_000_000,
{
    reveal_with_fuel(pow10, 20);
}

/// A decimal number with an exact representation: its value is
/// `(if neg { -1 } else { 1 }) * mantissa / 10^scale`.
///
/// Version numbers such as `1.5` are decimal literals in the configuration
/// sources; holding them as an integer mantissa and a scale keeps their exact
/// written value, with no rounding.
#[derive(Clone, Copy, Debug, PartialEq, Eq, Structural)]
pub struct Decimal {
    pub neg: bool,
    pub mantissa: u64,
    pub scale: u32,
}

impl Decimal {
    /// The scale is small enough that `10^scale` fits comfortably in `u64`
    /// arithmetic.
    pub open spec fn wf(self) -> bool {
        self.scale <= 18 && self.mantissa < pow10(18)
    }
}

pub open spec fn is_digit(b: u8) -> bool {
    48 <= b && b <= 57
}

pub open spec fn all_digits(s: Seq<u8>) -> bool {
    forall|i: int| 0 <= i < s.len() ==> is_digit(#[trigger] s[i])
}

/// The numeric value of a string of decimal digit bytes.
pub open spec fn digits_val(s: Seq<u8>) -> nat
    decreases s.len(),
{
    if s.len() == 0 {
        0
    } else {
        10 * digits_val(s.drop_last()) + (s.last() - 48) as nat
    }
}

pub proof fn lemma_digits_val_bound(s: Seq<u8>)
    requires
        all_digits(s),
    ensures
        digits_val(s) < pow10(s.len()),
    decreases s.len(),
{
    if s.len() > 0 {
        assert(all_digits(s.drop_last()));
        lemma_digits_val_bound(s.drop_last());
        assert(is_digit(s[s.len() - 1]));
    }
}

/// The first index at or after `i` where byte `b` occurs, or `s.len()`.
pub open spec fn find_from(s: Seq<u8>, b: u8, i: int) -> int
    decreases s.len() - i when 0 <= i <= s.len()
{
    if i >= s.len() {
        s.len() as int
    } else if s[i] == b {
        i
    } else {
        find_from(s, b, i + 1)
    }
}

pub proof fn lemma_find_from(s: Seq<u8>, b: u8, i: int)
    requires
        0 <= i <= s.len(),
    ensures
        i <= find_from(s, b, i) <= s.len(),
        find_from(s, b, i) < s.len() ==> s[find_from(s, b, i)] == b,
        forall|k: int| i <= k < find_from(s, b, i) ==> s[k] != b,
    decreases s.len() - i,
{
    if i < s.len() && s[i] != b {
        lemma_find_from(s, b, i + 1);
    }
}

/// Parses an optionally signed decimal literal: `-?digits(.digits)?`, with at
/// most 18 digits in all so that the mantissa fits in a `u64`.
pub open spec fn spec_parse_decimal(t: Seq<u8>) -> Option<Decimal> {
    let neg = t.len() > 0 && t[0] == 45u8;
    let r = if neg {
        t.subrange(1, t.len() as int)
    } else {
        t
    };
    let d = find_from(r, 46u8, 0);
    if d == r.len() {
        if 1 <= r.len() <= 18 && all_digits(r) {
            Some(Decimal { neg, mantissa: digits_val(r) as u64, scale: 0 })
        } else {
            None
        }
    } else {
        let ip = r.subrange(0, d);
        let fp = r.subrange(d + 1, r.len() as int);
        if ip.len() >= 1 && fp.len() >= 1 && ip.len() + fp.len() <= 18 && all_digits(ip)
            && all_digits(fp) && find_from(r, 46u8, d + 1) == r.len() {
            Some(
                Decimal {
                    neg,
                    mantissa: digits_val(ip + fp) as u64,
                    scale: fp.len() as u32,
                },
            )
        } else {
            None
        }
    }
}

pub proof fn lemma_parse_decimal_wf(t: Seq<u8>)
    ensures
        spec_parse_decimal(t) is Some ==> spec_parse_decimal(t)->Some_0.wf(),
{
    let neg = t.len() > 0 && t[0] == 45u8;
    let r = if neg {
        t.subrange(1, t.len() as int)
    } else {
        t
    };
    let d = find_from(r, 46u8, 0);
    lemma_find_from(r, 46u8, 0);
    if spec_parse_decimal(t) is Some {
        if d == r.len() {
            lemma_digits_val_bound(r);
            lemma_pow10_monotonic(r.len(), 18);
        } else {
            let ip = r.subrange(0, d);
            let fp = r.subrange(d + 1, r.len() as int);
            assert(all_digits(ip + fp));
            lemma_digits_val_bound(ip + fp);
            lemma_pow10_monotonic((ip + fp).len(), 18);
        }
    }
}

pub(crate) fn copy_range(s: &[u8], a: usize, b: usize) -> (v: Vec<u8>)
    requires
        a <= b <= s@.len(),
    ensures
        v@ == s@.subrange(a as int, b as int),
{
    let mut v: Vec<u8> = Vec::new();
    let mut j: usize = a;
    while j < b
        invariant
            a <= j <= b <= s@.len(),
            v@ == s@.subrange(a as int, j as int),
        decreases b - j,
    {
        v.push(s[j]);
        j += 1;
        proof {
            assert(v@ =~= s@.subrange(a as int, j as int));
        }
    }
    v
}

pub(crate) fn find_byte(s: &[u8], b: u8, from: usize) -> (r: usize)
    requires
        from <= s@.len(),
    ensures
        r == find_from(s@, b, from as int),
{
    let n = s.len();
    let mut j: usize = from;
    while j < n && s[j] != b
        invariant
            from <= j <= n,
            n == s@.len(),
            find_from(s@, b, from as int) == find_from(s@, b, j as int),
        decreases n - j,
    {
        j += 1;
    }
    j
}

fn check_all_digits(s: &[u8]) -> (r: bool)
    ensures
        r == all_digits(s@),
{
    let mut j: usize = 0;
    while j < s.len()
        invariant
            j <= s@.len(),
            forall|k: int| 0 <= k < j ==> is_digit(#[trigger] s@[k]),
        decreases s@.len() - j,
    {
        if s[j] < 48 || s[j] > 57 {
            assert(!is_digit(s@[j as int]));
            return false;
        }
        j += 1;
    }
    true
}

fn dec_value(s: &[u8]) -> (v: u64)
    requires
        all_digits(s@),
        s@.len() <= 18,
    ensures
        v as nat == digits_val(s@),
{
    let n = s.len();
    let mut v: u64 = 0;
    let mut j: usize = 0;
    while j < n
        invariant
            j <= n,
            n == s@.len(),
            n <= 18,
            all_digits(s@),
            v as nat == digits_val(s@.subrange(0, j as int)),
            v < pow10(j as nat),
        decreases n - j,
    {
        proof {
            lemma_pow10_monotonic((j + 1) as nat, 18);
            lemma_pow10_18();
            assert(s@.subrange(0, j as int + 1).drop_last() =~= s@.subrange(0, j as int));
            assert(is_digit(s@[j as int]));
        }
        let d = s[j] - 48;
        v = v * 10 + d as u64;
        j += 1;
    }
    proof {
        assert(s@.subrange(0, n as int) =~= s@);
    }
    v
}

/// Parses an optionally signed decimal literal, such as `1.5` or `-3.14`,
/// exactly as `spec_parse_decimal` describes.
pub fn parse_decimal(t: &[u8]) -> (r: Option<Decimal>)
    ensures
        r == spec_parse_decimal(t@),
        r is Some ==> r->Some_0.wf(),
{
    proof {
        lemma_parse_decimal_wf(t@);
    }
    let n = t.len();
    let neg = n > 0 && t[0] == 45u8;
    let start: usize = if neg {
        1
    } else {
        0
    };
    let r = copy_range(t, start, n);
    proof {
        if !neg {
            assert(r@ =~= t@);
        }
    }
    let rn = r.len();
    let d = find_byte(r.as_slice(), 46u8, 0);
    proof {
        lemma_find_from(r@, 46u8, 0);
    }
    if d == rn {
        if 1 <= rn && rn <= 18 && check_all_digits(r.as_slice()) {
            let m = dec_value(r.as_slice());
            Some(Decimal { neg, mantissa: m, scale: 0 })
        } else {
            None
        }
    } else {
        let ip = copy_range(r.as_slice(), 0, d);
        let fp = copy_range(r.as_slice(), d + 1, rn);
        let d2 = find_byte(r.as_slice(), 46u8, d + 1);
        if ip.len() >= 1 && fp.len() >= 1 && ip.len() + fp.len() <= 18 && d2 == rn
            && check_all_digits(ip.as_slice()) && check_all_digits(fp.as_slice()) {
            let mut all = ip;
            all.extend_from_slice(fp.as_slice());
            proof {
                assert(all@ =~= r@.subrange(0, d as int) + r@.subrange(d + 1, r@.len() as int));
            }
            let m = dec_value(all.as_slice());
            Some(Decimal { neg, mantissa: m, scale: fp.len() as u32 })
        } else {
            None
        }
    }
}

/// The decimal digit bytes of `n`, most significant first, no leading zeros
/// (a single `0` for zero).
pub open spec fn spec_digits(n: nat) -> Seq<u8>
    decreases n,
{
    if n < 10 {
        seq![(48 + n) as u8]
    } else {
        spec_digits(n / 10).push((48 + n % 10) as u8)
    }
}

/// Exactly `k` decimal digit bytes of `n`, zero-padded on the left.
pub open spec fn spec_fixed_digits(n: nat, k: nat) -> Seq<u8>
    decreases k,
{
    if k == 0 {
        Seq::<u8>::empty()
    } else {
        spec_fixed_digits(n / 10, (k - 1) as nat).push((48 + n % 10) as u8)
    }
}

/// The canonical text of a decimal: sign, integer part, a dot, and the
/// fractional digits (a single `0` when the scale is zero).
pub open spec fn spec_render_decimal(d: Decimal) -> Seq<u8> {
    let sign: Seq<u8> = if d.neg {
        seq![45u8]
    } else {
        Seq::<u8>::empty()
    };
    let ip = d.mantissa as nat / pow10(d.scale as nat);
    let fp = d.mantissa as nat % pow10(d.scale as nat);
    let frac: Seq<u8> = if d.scale == 0 {
        seq![48u8]
    } else {
        spec_fixed_digits(fp, d.scale as nat)
    };
    sign + spec_digits(ip) + seq![46u8] + frac
}

fn pow10_u64(k: u32) -> (r: u64)
    requires
        k <= 18,
    ensures
        r as nat == pow10(k as nat),
    decreases k,
{
    proof {
        lemma_pow10_18();
        lemma_pow10_monotonic(k as nat, 18);
    }
    if k == 0 {
        1
    } else {
        let sub = pow10_u64(k - 1);
        10 * sub
    }
}

fn render_digits(n: u64) -> (v: Vec<u8>)
    ensures
        v@ == spec_digits(n as nat),
    decreases n,
{
    if n < 10 {
        let mut v: Vec<u8> = Vec::new();
        v.push(48 + n as u8);
        proof {
            assert(v@ =~= spec_digits(n as nat));
        }
        v
    } else {
        let mut v = render_digits(n / 10);
        v.push(48 + (n % 10) as u8);
        proof {
            assert(v@ =~= spec_digits(n as nat));
        }
        v
    }
}

fn render_fixed_digits(n: u64, k: u32) -> (v: Vec<u8>)
    ensures
        v@ == spec_fixed_digits(n as nat, k as nat),
    decreases k,
{
    if k == 0 {
        Vec::new()
    } else {
        let mut v = render_fixed_digits(n / 10, k - 1);
        v.push(48 + (n % 10) as u8);
        proof {
            assert(v@ =~= spec_fixed_digits(n as nat, k as nat));
        }
        v
    }
}

impl Decimal {
    /// The canonical text of this decimal, as `spec_render_decimal` gives it:
    /// `3.14` renders as the bytes of `"3.14"`.
    pub fn render(&self) -> (v: Vec<u8>)
        requires
            self.wf(),
        ensures
            v@ == spec_render_decimal(*self),
    {
        let p = pow10_u64(self.scale);
        proof {
            lemma_pow10_monotonic(0, self.scale as nat);
        }
        let ip = self.mantissa / p;
        let fp = self.mantissa % p;
        let mut v: Vec<u8> = Vec::new();
        if self.neg {
            v.push(45u8);
        }
        let mut digs = render_digits(ip);
        v.append(&mut digs);
        v.push(46u8);
        if self.scale == 0 {
            v.push(48u8);
        } else {
            let mut f = render_fixed_digits(fp, self.scale);
            v.append(&mut f);
        }
        proof {
            assert(v@ =~= spec_render_decimal(*self));
        }
        v
    }
}

} // verus!
