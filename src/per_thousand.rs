//! A share in thousandths, from 0 to 1000, read from and shown as a decimal.
use vstd::prelude::*;
use vstd::string::StringSliceAdditionalSpecFns;

verus! {

pub const DENOMINATOR: u16 = 1000;

pub open spec fn is_digit(c: u8) -> bool {
    48 <= c <= 57
}

pub open spec fn all_digits(s: Seq<u8>) -> bool {
    forall|i: int| 0 <= i < s.len() ==> is_digit(#[trigger] s[i])
}

/// The number that the decimal digits `s` spell.
pub open spec fn digits_value(s: Seq<u8>) -> nat
    decreases s.len(),
{
    if s.len() == 0 {
        0
    } else {
        digits_value(s.drop_last()) * 10 + (s.last() - 48) as nat
    }
}

pub open spec fn pow10(n: nat) -> nat
    decreases n,
{
    if n == 0 {
        1
    } else {
        10 * pow10((n - 1) as nat)
    }
}

/// The position of the first `.` in `s`, or its length when there is none.
pub open spec fn first_dot(s: Seq<u8>) -> nat
    decreases s.len(),
{
    if s.len() == 0 || s[0] == 46 {
        0
    } else {
        1 + first_dot(s.drop_first())
    }
}

/// The number of `decimals`-th parts that `body` spells: digits, optionally a
/// point and at most `decimals` more digits, with at least one digit in all.
pub open spec fn fixed_point_value(body: Seq<u8>, decimals: nat) -> Option<nat> {
    let k = first_dot(body) as int;
    let ip = body.take(k);
    let fp = if k < body.len() {
        body.skip(k + 1)
    } else {
        Seq::<u8>::empty()
    };
    if all_digits(ip) && all_digits(fp) && ip.len() + fp.len() > 0 && fp.len() <= decimals {
        Some(digits_value(ip) * pow10(decimals) + digits_value(fp) * pow10((decimals - fp.len()) as nat))
    } else {
        None
    }
}

/// The thousandths that `s` spells: a percentage with at most one decimal
/// when it ends in `%`, else a fraction with at most three decimals.
pub open spec fn thousandths_of(s: Seq<u8>) -> Option<nat> {
    if s.len() > 0 && s.last() == 37 {
        fixed_point_value(s.drop_last(), 1)
    } else {
        fixed_point_value(s, 3)
    }
}

pub open spec fn digit_char(d: nat) -> char {
    if d == 0 {
        '0'
    } else if d == 1 {
        '1'
    } else if d == 2 {
        '2'
    } else if d == 3 {
        '3'
    } else if d == 4 {
        '4'
    } else if d == 5 {
        '5'
    } else if d == 6 {
        '6'
    } else if d == 7 {
        '7'
    } else if d == 8 {
        '8'
    } else {
        '9'
    }
}

/// The decimal digits of `n`, without leading zeros.
pub open spec fn decimal_chars(n: nat) -> Seq<char>
    decreases n,
{
    if n < 10 {
        seq![digit_char(n)]
    } else {
        decimal_chars(n / 10).push(digit_char(n % 10))
    }
}

/// `v` thousandths as a percentage with one decimal, the decimal left out
/// when it is zero: 11 is "1.1%", 10 is "1%".
pub open spec fn percent_text(v: nat) -> Seq<char> {
    decimal_chars(v / 10) + (if v % 10 == 0 {
        Seq::<char>::empty()
    } else {
        seq!['.', digit_char(v % 10)]
    }) + seq!['%']
}

proof fn lemma_digits_prefix(s: Seq<u8>, j: int)
    requires
        0 <= j < s.len(),
    ensures
        digits_value(s.take(j + 1)) == digits_value(s.take(j)) * 10 + (s[j] - 48) as nat,
{
    assert(s.take(j + 1).drop_last() =~= s.take(j));
}

proof fn lemma_digits_monotone(s: Seq<u8>, j: int)
    requires
        0 <= j <= s.len(),
        all_digits(s),
    ensures
        digits_value(s.take(j)) <= digits_value(s),
    decreases s.len(),
{
    if j < s.len() {
        assert(s.drop_last().take(j) =~= s.take(j));
        assert(all_digits(s.drop_last()));
        lemma_digits_monotone(s.drop_last(), j);
    } else {
        assert(s.take(j) =~= s);
    }
}

proof fn lemma_first_dot_step(s: Seq<u8>, i: int)
    requires
        0 <= i < s.len(),
        s[i] != 46,
    ensures
        first_dot(s.skip(i)) == 1 + first_dot(s.skip(i + 1)),
{
    assert(s.skip(i).drop_first() =~= s.skip(i + 1));
}

fn pow10_exec(n: u64) -> (r: u64)
    requires
        n <= 3,
    ensures
        r == pow10(n as nat),
        1 <= r <= 1000,
{
    proof {
        reveal_with_fuel(pow10, 4);
    }
    if n == 0 {
        1
    } else if n == 1 {
        10
    } else if n == 2 {
        100
    } else {
        1000
    }
}

/// Reads the digits `b[from..to]`, giving up once their value passes 1000.
fn read_digits(b: &[u8], from: usize, to: usize) -> (r: Option<u64>)
    requires
        from <= to <= b@.len(),
    ensures
        match r {
            Some(v) => all_digits(b@.subrange(from as int, to as int)) && v == digits_value(
                b@.subrange(from as int, to as int),
            ) && v <= 1000,
            None => !all_digits(b@.subrange(from as int, to as int)) || digits_value(
                b@.subrange(from as int, to as int),
            ) > 1000,
        },
{
    let ghost s = b@.subrange(from as int, to as int);
    let mut v: u64 = 0;
    let mut j: usize = from;
    while j < to
        invariant
            from <= j <= to <= b@.len(),
            s == b@.subrange(from as int, to as int),
            all_digits(s.take(j - from)),
            v == digits_value(s.take(j - from)),
            v <= 1000,
        decreases to - j,
    {
        let c = b[j];
        if !(48 <= c && c <= 57) {
            proof {
                assert(s[j - from] == c);
            }
            return None;
        }
        proof {
            lemma_digits_prefix(s, j - from);
            assert(s[j - from] == c);
            assert forall|i: int| 0 <= i < j - from + 1 implies is_digit(#[trigger] s.take(j - from + 1)[i]) by {
                if i < j - from {
                    assert(s.take(j - from + 1)[i] == s.take(j - from)[i]);
                }
            }
        }
        v = v * 10 + (c - 48) as u64;
        if v > 1000 {
            proof {
                if all_digits(s) {
                    lemma_digits_monotone(s, j - from + 1);
                }
            }
            return None;
        }
        j = j + 1;
    }
    proof {
        assert(s.take(to - from) =~= s);
    }
    Some(v)
}

/// The thousandths that `b[..end]` spells with `decimals` decimals, when
/// they are at most 1000.
fn parse_fixed(b: &[u8], end: usize, decimals: u64) -> (r: Option<u16>)
    requires
        end <= b@.len(),
        1 <= decimals <= 3,
    ensures
        r == match fixed_point_value(b@.take(end as int), decimals as nat) {
            Some(v) => if v <= 1000 {
                Some(v as u16)
            } else {
                None::<u16>
            },
            None => None::<u16>,
        },
{
    let ghost body = b@.take(end as int);
    let mut k: usize = 0;
    proof {
        assert(body.skip(0) =~= body);
    }
    while k < end && b[k] != 46u8
        invariant
            k <= end <= b@.len(),
            body == b@.take(end as int),
            first_dot(body) == k + first_dot(body.skip(k as int)),
        decreases end - k,
    {
        proof {
            lemma_first_dot_step(body, k as int);
        }
        k = k + 1;
    }
    proof {
        if k == end {
            assert(body.skip(k as int) =~= Seq::<u8>::empty());
        } else {
            assert(body.skip(k as int)[0] == 46);
        }
        assert(first_dot(body) == k);
        assert(body.take(k as int) =~= b@.subrange(0, k as int));
    }
    let ghost ip = body.take(k as int);
    let iv = match read_digits(b, 0, k) {
        Some(v) => v,
        None => {
            proof {
                if all_digits(ip) {
                    assert(digits_value(ip) > 1000);
                    assert(pow10(decimals as nat) >= 1) by {
                        reveal_with_fuel(pow10, 4);
                    }
                    assert(digits_value(ip) * pow10(decimals as nat) >= digits_value(ip)) by (nonlinear_arith)
                        requires pow10(decimals as nat) >= 1;
                }
            }
            return None;
        },
    };
    let (fv, fl) = if k < end {
        let fl = end - k - 1;
        proof {
            assert(body.skip(k + 1) =~= b@.subrange(k + 1, end as int));
        }
        if fl as u64 > decimals {
            return None;
        }
        match read_digits(b, k + 1, end) {
            Some(v) => (v, fl as u64),
            None => {
                proof {
                    let fp = body.skip(k + 1);
                    if all_digits(fp) {
                        assert(fp.len() <= 3);
                        lemma_small_digits(fp);
                    }
                }
                return None;
            },
        }
    } else {
        (0u64, 0u64)
    };
    if k == 0 && fl == 0 {
        proof {
            if k < end {
                assert(body.skip(k + 1).len() == 0);
            }
        }
        return None;
    }
    proof {
        reveal_with_fuel(pow10, 4);
    }
    assert(fl <= decimals && iv <= 1000 && fv <= 1000);
    let int_scale = pow10_exec(decimals);
    let frac_scale = pow10_exec(decimals - fl);
    assert(iv * int_scale <= 1000 * 1000 && fv * frac_scale <= 1000 * 1000) by (nonlinear_arith)
        requires
            iv <= 1000,
            int_scale <= 1000,
            fv <= 1000,
            frac_scale <= 1000,
    ;
    let atoms = iv * int_scale + fv * frac_scale;
    proof {
        if k < end {
            assert(body.skip(k + 1) =~= b@.subrange(k + 1, end as int));
        } else {
            assert(digits_value(Seq::<u8>::empty()) == 0);
        }
    }
    if atoms <= 1000 {
        Some(atoms as u16)
    } else {
        None
    }
}

proof fn lemma_digits_bound(s: Seq<u8>)
    requires
        all_digits(s),
    ensures
        digits_value(s) < pow10(s.len()),
    decreases s.len(),
{
    if s.len() > 0 {
        let t = s.drop_last();
        assert(all_digits(t));
        lemma_digits_bound(t);
        assert(s.last() == s[s.len() - 1]);
        let d = (s.last() - 48) as nat;
        assert(d <= 9);
        let a = digits_value(t);
        let p = pow10(t.len());
        assert(a * 10 + d < 10 * p) by (nonlinear_arith)
            requires
                a < p,
                d <= 9,
        ;
    }
}

proof fn lemma_small_digits(s: Seq<u8>)
    requires
        s.len() <= 3,
        all_digits(s),
    ensures
        digits_value(s) <= 999,
{
    lemma_digits_bound(s);
    reveal_with_fuel(pow10, 4);
}

fn digit_char_exec(d: u16) -> (c: char)
    requires
        d < 10,
    ensures
        c == digit_char(d as nat),
{
    if d == 0 {
        '0'
    } else if d == 1 {
        '1'
    } else if d == 2 {
        '2'
    } else if d == 3 {
        '3'
    } else if d == 4 {
        '4'
    } else if d == 5 {
        '5'
    } else if d == 6 {
        '6'
    } else if d == 7 {
        '7'
    } else if d == 8 {
        '8'
    } else {
        '9'
    }
}

fn push_decimal(out: &mut Vec<char>, n: u16)
    ensures
        final(out)@ == old(out)@ + decimal_chars(n as nat),
    decreases n,
{
    if n >= 10 {
        push_decimal(out, n / 10);
    }
    out.push(digit_char_exec(n % 10));
    proof {
        if n < 10 {
            assert(final(out)@ =~= old(out)@ + decimal_chars(n as nat));
        } else {
            assert(final(out)@ =~= old(out)@ + decimal_chars(n as nat));
        }
    }
}

/// Relies on `String`'s `FromIterator<&char>`: the string of exactly these
/// characters, in order.
#[verifier::external_body]
fn string_from_chars(chars: &Vec<char>) -> (r: String)
    ensures
        r@ == chars@,
{
    chars.iter().collect()
}

/// A share in thousandths: a whole number from 0 to 1000.
#[derive(Clone, Copy, Debug, PartialEq, Eq, PartialOrd, Ord, Hash)]
pub struct PerThousand(u16);

/// A text that does not spell a share in thousandths.
#[derive(Clone, Debug, PartialEq, Eq)]
pub struct PerThousandParseError {
    pub bad_value: String,
}

impl PerThousand {
    #[verifier::type_invariant]
    spec fn inv(self) -> bool {
        self.0 <= DENOMINATOR
    }

    pub closed spec fn spec_value(self) -> u16 {
        self.0
    }

    /// `value` thousandths, when it is at most 1000.
    pub fn new(value: u16) -> (r: Option<PerThousand>)
        ensures
            value <= 1000 ==> r is Some && r->Some_0.spec_value() == value,
            value > 1000 ==> r is None,
    {
        if value <= DENOMINATOR {
            Some(PerThousand(value))
        } else {
            None
        }
    }

    pub fn value(&self) -> (r: u16)
        ensures
            r == self.spec_value(),
            r <= 1000,
    {
        proof {
            use_type_invariant(self);
        }
        self.0
    }

    pub fn denominator(&self) -> (r: u16)
        ensures
            r == 1000,
    {
        DENOMINATOR
    }

    /// Reads `s` as a percentage with at most one decimal when it ends in
    /// `%` ("12.5%"), else as a fraction with at most three decimals ("0.125").
    pub fn from_decimal_str(s: &str) -> (r: Option<PerThousand>)
        ensures
            match thousandths_of(s.spec_bytes()) {
                Some(v) => if v <= 1000 {
                    r is Some && r->Some_0.spec_value() == v
                } else {
                    r is None
                },
                None => r is None,
            },
    {
        let b = s.as_bytes();
        let n = b.len();
        let parsed = if n > 0 && b[n - 1] == 37u8 {
            proof {
                assert(b@.take(n - 1) =~= b@.drop_last());
            }
            parse_fixed(b, n - 1, 1)
        } else {
            proof {
                assert(b@.take(n as int) =~= b@);
            }
            parse_fixed(b, n, 3)
        };
        match parsed {
            Some(v) => Some(PerThousand(v)),
            None => None,
        }
    }

    /// As `from_decimal_str`, with the rejected text in the error.
    pub fn from_decimal_str_with_result(s: &str) -> (r: Result<PerThousand, PerThousandParseError>)
        ensures
            match thousandths_of(s.spec_bytes()) {
                Some(v) => if v <= 1000 {
                    r is Ok && r->Ok_0.spec_value() == v
                } else {
                    r is Err && r->Err_0.bad_value@ == s@
                },
                None => r is Err && r->Err_0.bad_value@ == s@,
            },
    {
        match PerThousand::from_decimal_str(s) {
            Some(p) => Ok(p),
            None => Err(PerThousandParseError { bad_value: s.to_owned() }),
        }
    }

    /// The share as a percentage with one decimal, the decimal left out when
    /// it is zero ("0.1%", "1%", "82.7%", "100%").
    pub fn to_string(&self) -> (r: String)
        ensures
            r@ == percent_text(self.spec_value() as nat),
    {
        proof {
            use_type_invariant(self);
        }
        let v = self.0;
        let mut chars: Vec<char> = Vec::new();
        push_decimal(&mut chars, v / 10);
        if v % 10 != 0 {
            chars.push('.');
            chars.push(digit_char_exec(v % 10));
        }
        chars.push('%');
        proof {
            assert(chars@ =~= percent_text(v as nat));
        }
        string_from_chars(&chars)
    }
}

} // verus!
