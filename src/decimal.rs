use vstd::prelude::*;

verus! {

/// A decimal number `(-1)^negative * digits / 10^scale`, the exact value of a
/// stick coordinate or a duration as the host prints it.
///
/// The sign is kept apart from the digits so that a negative zero, which the
/// host prints as `-0`, can be written too.
#[derive(Debug, Clone, Copy, PartialEq, Eq, Hash, Structural)]
pub struct Decimal {
    pub negative: bool,
    pub digits: u128,
    pub scale: u32,
}

/// The character of the decimal digit `d`.
pub open spec fn digit_char(d: nat) -> char
    recommends
        d < 10,
{
    seq!['0', '1', '2', '3', '4', '5', '6', '7', '8', '9'][d as int]
}

/// The decimal digits of `n`, with leading zeros up to at least `width` digits.
pub open spec fn padded_digits(n: nat, width: nat) -> Seq<char>
    decreases n, width,
{
    if n < 10 && width <= 1 {
        seq![digit_char(n)]
    } else {
        padded_digits(n / 10, if width > 0 { (width - 1) as nat } else { 0 }) + seq![
            digit_char(n % 10),
        ]
    }
}

/// The same value with no trailing zero after the decimal point.
pub open spec fn trimmed(digits: nat, scale: nat) -> (nat, nat)
    decreases scale,
{
    if scale > 0 && digits % 10 == 0 {
        trimmed(digits / 10, (scale - 1) as nat)
    } else {
        (digits, scale)
    }
}

/// The shortest decimal text of `digits / 10^scale`: no trailing zero after the
/// point, and no point at all for an integral value (`0.5`, `-1`, `0`).
pub open spec fn decimal_text(negative: bool, digits: nat, scale: nat) -> Seq<char> {
    let (m, e) = trimmed(digits, scale);
    let all = padded_digits(m, e + 1);
    let sign = if negative {
        seq!['-']
    } else {
        Seq::<char>::empty()
    };
    if e == 0 {
        sign + all
    } else {
        sign + all.subrange(0, all.len() - e) + seq!['.'] + all.subrange(all.len() - e, all.len() as int)
    }
}

/// The characters of a sequence of decimal digit values.
pub open spec fn digit_chars(s: Seq<u8>) -> Seq<char> {
    s.map_values(|d: u8| digit_char(d as nat))
}

/// Whether `c` is one of `0` to `9`.
pub open spec fn is_digit(c: char) -> bool {
    '0' <= c && c <= '9'
}

/// The number that a run of decimal digits denotes.
pub open spec fn numeral_value(s: Seq<char>) -> nat
    decreases s.len(),
{
    if s.len() == 0 {
        0
    } else {
        numeral_value(s.drop_last()) * 10 + ((s.last() as u32) as int - 48) as nat
    }
}

/// A non-empty run of decimal digits.
pub open spec fn is_numeral(s: Seq<char>) -> bool {
    s.len() > 0 && forall|i: int| 0 <= i < s.len() ==> is_digit(#[trigger] s[i])
}

/// The index of the first `.` in `s`, or its length where there is none.
pub open spec fn first_dot(s: Seq<char>) -> int
    decreases s.len(),
{
    if s.len() == 0 {
        0
    } else if s[0] == '.' {
        0
    } else {
        1 + first_dot(s.drop_first())
    }
}

/// A text `[-]int[.frac]` cut into its sign, its integer digits and, where it
/// has a point, the digits after it.
pub open spec fn text_parts(s: Seq<char>) -> (bool, Seq<char>, Option<Seq<char>>) {
    let negative = s.len() > 0 && s[0] == '-';
    let body = if negative {
        s.drop_first()
    } else {
        s
    };
    let k = first_dot(body);
    (negative, body.take(k), if k < body.len() {
        Some(body.skip(k + 1))
    } else {
        None
    })
}

/// The digits after the point, empty where there is no point.
pub open spec fn fraction_digits(s: Seq<char>) -> Seq<char> {
    match text_parts(s).2 {
        Some(f) => f,
        None => Seq::empty(),
    }
}

/// Whether `s` is an optional `-`, digits, and optionally a `.` followed by digits.
pub open spec fn is_decimal_text(s: Seq<char>) -> bool {
    is_numeral(text_parts(s).1) && match text_parts(s).2 {
        Some(f) => is_numeral(f),
        None => true,
    }
}

/// The decimal that `s` denotes, where it is one and its parts fit the fields.
pub open spec fn decimal_of_text(s: Seq<char>) -> Option<Decimal> {
    let digits = numeral_value(text_parts(s).1 + fraction_digits(s));
    let scale = fraction_digits(s).len();
    if is_decimal_text(s) && digits <= u128::MAX && scale <= u32::MAX {
        Some(Decimal { negative: text_parts(s).0, digits: digits as u128, scale: scale as u32 })
    } else {
        None
    }
}

proof fn lemma_first_dot(s: Seq<char>, k: int)
    requires
        0 <= k <= s.len(),
        k < s.len() ==> s[k] == '.',
        forall|j: int| 0 <= j < k ==> s[j] != '.',
    ensures
        first_dot(s) == k,
    decreases s.len(),
{
    if s.len() > 0 && s[0] != '.' {
        assert forall|j: int| 0 <= j < k - 1 implies s.drop_first()[j] != '.' by {
            assert(s.drop_first()[j] == s[j + 1]);
        }
        lemma_first_dot(s.drop_first(), k - 1);
    }
}

/// A prefix of a run of digits denotes no more than the whole run.
proof fn lemma_prefix_value(s: Seq<char>, i: int)
    requires
        0 <= i <= s.len(),
        forall|j: int| 0 <= j < s.len() ==> is_digit(#[trigger] s[j]),
    ensures
        numeral_value(s.take(i)) <= numeral_value(s),
    decreases s.len(),
{
    if i < s.len() {
        let t = s.drop_last();
        assert(t.take(i) == s.take(i));
        lemma_prefix_value(t, i);
    } else {
        assert(s.take(i) == s);
    }
}

impl Decimal {
    /// The text of the number on the wire.
    pub open spec fn text(self) -> Seq<char> {
        decimal_text(self.negative, self.digits as nat, self.scale as nat)
    }

    /// The number `(-1)^negative * digits / 10^scale`.
    pub fn new(negative: bool, digits: u128, scale: u32) -> (r: Decimal)
        ensures
            r == (Decimal { negative, digits, scale }),
    {
        Decimal { negative, digits, scale }
    }

    /// Reads a text `[-]int[.frac]`, such as `-0.25`: the digits of both parts
    /// together, and as many decimal places as `frac` has. `None` where the
    /// text has another form or its digits or places do not fit.
    pub fn from_text(s: &str) -> (r: Option<Decimal>)
        ensures
            r == decimal_of_text(s@),
    {
        let n = s.unicode_len();
        let negative = n > 0 && s.get_char(0) == '-';
        let start: usize = if negative {
            1
        } else {
            0
        };
        let ghost body = if negative {
            s@.drop_first()
        } else {
            s@
        };
        assert(body == s@.skip(start as int));
        let mut k: usize = start;
        while k < n && s.get_char(k) != '.'
            invariant
                start <= k <= n,
                n == s@.len(),
                forall|j: int| start <= j < k ==> s@[j] != '.',
            decreases n - k,
        {
            k = k + 1;
        }
        proof {
            lemma_first_dot(body, k - start);
        }
        let ghost int_part = body.take(k - start);
        let ghost frac = if k < n {
            body.skip(k - start + 1)
        } else {
            Seq::<char>::empty()
        };
        let ghost all = int_part + frac;
        assert(text_parts(s@) == (negative, int_part, if k < n {
            Some(frac)
        } else {
            None
        }));
        assert(fraction_digits(s@) == frac);
        if k == start {
            return None;
        }
        let mut value: u128 = 0;
        let mut i: usize = start;
        while i < k
            invariant
                start <= i <= k <= n,
                n == s@.len(),
                all == int_part + frac,
                int_part == s@.subrange(start as int, k as int),
                text_parts(s@).0 == negative,
                text_parts(s@).1 == int_part,
                fraction_digits(s@) == frac,
                k < n ==> text_parts(s@).2 == Some(frac),
                k == n ==> text_parts(s@).2 is None,
                value == numeral_value(all.take(i - start)),
                forall|j: int| 0 <= j < i - start ==> is_digit(#[trigger] all[j]),
            decreases k - i,
        {
            let c = s.get_char(i);
            if !('0' <= c && c <= '9') {
                assert(!is_numeral(int_part)) by {
                    assert(int_part[i - start] == c);
                }
                return None;
            }
            let d = (c as u32 - 48) as u128;
            proof {
                assert(all[i - start] == c);
                assert(all.take(i - start + 1).drop_last() == all.take(i - start));
            }
            if value > (u128::MAX - d) / 10 {
                proof {
                    assert(numeral_value(all.take(i - start + 1)) > u128::MAX);
                    if is_decimal_text(s@) {
                        assert forall|j: int| 0 <= j < all.len() implies is_digit(#[trigger] all[j]) by {
                            if j >= int_part.len() {
                                assert(all[j] == frac[j - int_part.len()]);
                            }
                        }
                        lemma_prefix_value(all, i - start + 1);
                    }
                }
                return None;
            }
            value = value * 10 + d;
            i = i + 1;
        }
        let mut scale: u32 = 0;
        if k < n {
            if k + 1 == n {
                return None;
            }
            i = k + 1;
            while i < n
                invariant
                    k + 1 <= i <= n,
                    n == s@.len(),
                    all == int_part + frac,
                    frac == s@.subrange(k + 1, n as int),
                    k < n,
                    text_parts(s@).0 == negative,
                    text_parts(s@).1 == int_part,
                    fraction_digits(s@) == frac,
                    k < n ==> text_parts(s@).2 == Some(frac),
                    k == n ==> text_parts(s@).2 is None,
                    int_part.len() == k - start,
                    scale == i - k - 1,
                    value == numeral_value(all.take(k - start + scale)),
                    forall|j: int| 0 <= j < k - start + scale ==> is_digit(#[trigger] all[j]),
                decreases n - i,
            {
                let c = s.get_char(i);
                if !('0' <= c && c <= '9') {
                    assert(!is_numeral(frac)) by {
                        assert(frac[i - k - 1] == c);
                    }
                    return None;
                }
                let d = (c as u32 - 48) as u128;
                let ghost m = k - start + scale;
                proof {
                    assert(all[m] == c);
                    assert(all.take(m + 1).drop_last() == all.take(m));
                }
                if value > (u128::MAX - d) / 10 {
                    proof {
                        assert(numeral_value(all.take(m + 1)) > u128::MAX);
                        if is_decimal_text(s@) {
                            assert forall|j: int| 0 <= j < all.len() implies is_digit(#[trigger] all[j]) by {
                                if j >= int_part.len() {
                                    assert(all[j] == frac[j - int_part.len()]);
                                }
                            }
                            lemma_prefix_value(all, m + 1);
                        }
                    }
                    return None;
                }
                if scale == u32::MAX {
                    return None;
                }
                value = value * 10 + d;
                scale = scale + 1;
                i = i + 1;
            }
        }
        proof {
            assert(all.take(all.len() as int) == all);
            assert forall|j: int| 0 <= j < int_part.len() implies is_digit(#[trigger] int_part[j]) by {
                assert(int_part[j] == all[j]);
            }
            assert forall|j: int| 0 <= j < frac.len() implies is_digit(#[trigger] frac[j]) by {
                assert(frac[j] == all[int_part.len() + j]);
            }
        }
        Some(Decimal { negative, digits: value, scale })
    }

    /// The shortest decimal text of the number.
    pub fn to_text(&self) -> (r: String)
        ensures
            r@ == self.text(),
    {
        let (m, e) = trim(self.digits, self.scale);
        let ds = digit_values(m, e);
        proof {
            lemma_padded_len(m as nat, e as nat + 1);
        }
        let mut r = String::new();
        if self.negative {
            r.append("-");
            proof {
                reveal_strlit("-");
            }
        }
        let ghost sign = r@;
        let split = ds.len() - e as usize;
        let mut i: usize = 0;
        while i < split
            invariant
                ds@.len() >= e + 1,
                split == ds@.len() - e,
                i <= split,
                forall|k: int| 0 <= k < ds@.len() ==> ds@[k] < 10,
                r@ == sign + digit_chars(ds@.subrange(0, i as int)),
            decreases split - i,
        {
            r.append(digit_str(ds[i]));
            proof {
                assert(ds@.subrange(0, i + 1) == ds@.subrange(0, i as int).push(ds@[i as int]));
            }
            i = i + 1;
        }
        if e > 0 {
            r.append(".");
            proof {
                reveal_strlit(".");
            }
        }
        let ghost head = r@;
        while i < ds.len()
            invariant
                split <= i <= ds@.len(),
                forall|k: int| 0 <= k < ds@.len() ==> ds@[k] < 10,
                r@ == head + digit_chars(ds@.subrange(split as int, i as int)),
            decreases ds.len() - i,
        {
            r.append(digit_str(ds[i]));
            proof {
                assert(ds@.subrange(split as int, i + 1) == ds@.subrange(split as int, i as int).push(
                    ds@[i as int],
                ));
            }
            i = i + 1;
        }
        proof {
            let all = padded_digits(m as nat, e as nat + 1);
            assert(digit_chars(ds@) == all);
            assert(digit_chars(ds@.subrange(0, split as int)) == all.subrange(0, all.len() - e));
            assert(digit_chars(ds@.subrange(split as int, ds@.len() as int)) == all.subrange(
                all.len() - e,
                all.len() as int,
            ));
            assert(ds@.subrange(0, ds@.len() as int) == ds@);
        }
        r
    }
}

proof fn lemma_padded_len(n: nat, width: nat)
    ensures
        padded_digits(n, width).len() >= width,
        padded_digits(n, width).len() >= 1,
    decreases n, width,
{
    if n < 10 && width <= 1 {
    } else {
        lemma_padded_len(n / 10, if width > 0 { (width - 1) as nat } else { 0 });
    }
}

/// Strips the trailing zeros after the decimal point.
fn trim(digits: u128, scale: u32) -> (r: (u128, u32))
    ensures
        (r.0 as nat, r.1 as nat) == trimmed(digits as nat, scale as nat),
{
    let mut m = digits;
    let mut e = scale;
    while e > 0 && m % 10 == 0
        invariant
            trimmed(m as nat, e as nat) == trimmed(digits as nat, scale as nat),
        decreases e,
    {
        m = m / 10;
        e = e - 1;
    }
    (m, e)
}

/// The decimal digits of `n`, padded with leading zeros to more than `scale` digits.
fn digit_values(n: u128, scale: u32) -> (r: Vec<u8>)
    ensures
        digit_chars(r@) == padded_digits(n as nat, scale as nat + 1),
        forall|k: int| 0 <= k < r@.len() ==> r@[k] < 10,
{
    let mut out: Vec<u8> = Vec::new();
    let mut m = n;
    let mut w: u64 = scale as u64 + 1;
    while !(m < 10 && w <= 1)
        invariant
            padded_digits(n as nat, scale as nat + 1) == padded_digits(m as nat, w as nat)
                + digit_chars(out@),
            forall|k: int| 0 <= k < out@.len() ==> out@[k] < 10,
        decreases m, w,
    {
        let d = (m % 10) as u8;
        proof {
            assert(digit_chars(out@.insert(0, d)) == seq![digit_char(d as nat)] + digit_chars(out@));
        }
        out.insert(0, d);
        m = m / 10;
        if w > 0 {
            w = w - 1;
        }
    }
    proof {
        assert(digit_chars(out@.insert(0, m as u8)) == seq![digit_char(m as nat)] + digit_chars(out@));
    }
    out.insert(0, m as u8);
    out
}

/// The one-character text of the digit `d`.
fn digit_str(d: u8) -> (r: &'static str)
    requires
        d < 10,
    ensures
        r@ == seq![digit_char(d as nat)],
{
    proof {
        reveal_strlit("0");
        reveal_strlit("1");
        reveal_strlit("2");
        reveal_strlit("3");
        reveal_strlit("4");
        reveal_strlit("5");
        reveal_strlit("6");
        reveal_strlit("7");
        reveal_strlit("8");
        reveal_strlit("9");
    }
    match d {
        0 => "0",
        1 => "1",
        2 => "2",
        3 => "3",
        4 => "4",
        5 => "5",
        6 => "6",
        7 => "7",
        8 => "8",
        _ => "9",
    }
}

} // verus!
