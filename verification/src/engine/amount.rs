//! Money as fixed-point decimals: eight places are kept, four are reported.

use crate::engine::text::{
    all_digits, chars_of, decimal, digit_of, digit_run, digits_value, fixed_digits, is_digit,
    lemma_decimal_reads_back, lemma_digit_run, lemma_fixed_digits_read_back, pow10, push_decimal,
    push_fixed_digits,
};
use vstd::prelude::*;

verus! {

/// How many units make one: amounts are counted in hundred-millionths.
pub const SCALE: i128 = 100_000_000;

/// The largest magnitude, in units, of an amount that is read and of a balance
/// that is kept.
pub const LIMIT: i128 = 1_000_000_000_000_000_000_000_000_000_000_000_000;

/// The largest whole part of an amount that is read: `LIMIT / SCALE`.
pub const WHOLE_LIMIT: i128 = 10_000_000_000_000_000_000_000_000_000;

/// A signed amount of money, counted in units of 10^-8.
#[derive(Clone, Copy, Debug, PartialEq, Eq, Structural)]
pub struct Amount {
    units: i128,
}

impl View for Amount {
    type V = int;

    closed spec fn view(&self) -> int {
        self.units as int
    }
}

/// `units` to four decimal places: the nearest multiple of ten thousand units,
/// and of two that are equally near the larger one (round half up).
pub open spec fn truncate4(units: int) -> int {
    (units + 5_000) / 10_000 * 10_000
}

/// Eight zeros: what a fraction is filled up with.
pub open spec fn zeros() -> Seq<char> {
    Seq::new(8, |i: int| '0')
}

/// The units that the digits `frac` after a decimal point stand for. Up to eight
/// digits count; a ninth and later ones are dropped.
pub open spec fn fraction_units(frac: Seq<char>) -> int {
    digits_value((frac + zeros()).take(8))
}

/// The units that the decimal number `s` stands for, if it is one and its
/// magnitude is at most `LIMIT`: an optional sign, digits, and optionally a point
/// and more digits, with a digit on at least one side of the point.
pub open spec fn amount_value(s: Seq<char>) -> Option<int> {
    let signed = s.len() > 0 && (s[0] == '+' || s[0] == '-');
    let negative = s.len() > 0 && s[0] == '-';
    let body = if signed {
        s.drop_first()
    } else {
        s
    };
    let w = digit_run(body);
    let whole = body.take(w);
    let frac = if w < body.len() {
        body.skip(w + 1)
    } else {
        Seq::<char>::empty()
    };
    let magnitude = digits_value(whole) * SCALE + fraction_units(frac);
    if (w == body.len() || body[w] == '.') && all_digits(frac) && whole.len() + frac.len() > 0
        && magnitude <= LIMIT {
        Some(
            if negative {
                -magnitude
            } else {
                magnitude
            },
        )
    } else {
        None
    }
}

/// The digits after the point that write `frac` units out of ten to the power
/// `places`: as many digits as `places`, but for zeros at the end.
pub open spec fn fraction_text(frac: nat, places: nat) -> Seq<char>
    decreases places,
{
    if frac == 0 || places == 0 {
        Seq::empty()
    } else if frac % 10 == 0 {
        fraction_text(frac / 10, (places - 1) as nat)
    } else {
        fixed_digits(frac, places)
    }
}

/// How an amount of `units` is written: a minus sign where it is below zero, the
/// whole part, and where there is a fraction, a point and the digits of the
/// fraction without zeros at the end.
pub open spec fn amount_text(units: int) -> Seq<char> {
    let magnitude = if units < 0 {
        -units
    } else {
        units
    };
    let sign = if units < 0 {
        seq!['-']
    } else {
        Seq::empty()
    };
    let whole = decimal((magnitude / SCALE as int) as nat);
    let frac = (magnitude % SCALE as int) as nat;
    if frac == 0 {
        sign + whole
    } else {
        sign + whole + seq!['.'] + fraction_text(frac, 8)
    }
}

/// Appends the digits after the point for `frac` to `out`.
fn push_fraction(out: &mut String, frac: u128, places: u8)
    ensures
        final(out)@ == old(out)@ + fraction_text(frac as nat, places as nat),
    decreases places,
{
    if frac == 0 || places == 0 {
        assert(out@ =~= old(out)@ + fraction_text(frac as nat, places as nat));
    } else if frac % 10 == 0 {
        push_fraction(out, frac / 10, places - 1);
    } else {
        push_fixed_digits(out, frac, places);
    }
}

impl Amount {
    /// The amount of `units` hundred-millionths.
    pub fn from_units(units: i128) -> (r: Amount)
        ensures
            r@ == units,
    {
        Amount { units }
    }

    /// No money at all.
    pub fn zero() -> (r: Amount)
        ensures
            r@ == 0,
    {
        Amount { units: 0 }
    }

    /// The number of hundred-millionths in this amount.
    pub fn units(&self) -> (r: i128)
        ensures
            r == self@,
    {
        self.units
    }

    /// This amount to four decimal places, half a step rounded up.
    pub fn truncate(&self) -> (r: Amount)
        requires
            i128::MIN + 10_000 <= self@ <= i128::MAX - 10_000,
        ensures
            r@ == truncate4(self@),
    {
        let shifted: i128 = self.units + 5_000;
        let steps: i128 = if shifted >= 0 {
            shifted / 10_000
        } else {
            -((-shifted + 9_999) / 10_000)
        };
        Amount { units: steps * 10_000 }
    }

    /// Writes the amount as a decimal number.
    pub fn to_text(&self) -> (r: String)
        ensures
            r@ == amount_text(self@),
    {
        let mut out = String::new();
        let magnitude: u128 = if self.units < 0 {
            out.append("-");
            (-(self.units + 1)) as u128 + 1
        } else {
            self.units as u128
        };
        proof {
            reveal_strlit("-");
            reveal_strlit(".");
            assert(self.units < 0 ==> out@ =~= seq!['-']);
        }
        let ghost sign = out@;
        let scale = SCALE as u128;
        push_decimal(&mut out, magnitude / scale);
        let frac = magnitude % scale;
        if frac != 0 {
            out.append(".");
            push_fraction(&mut out, frac, 8);
            assert(out@ =~= sign + decimal((magnitude / scale) as nat) + seq!['.']
                + fraction_text(frac as nat, 8));
        }
        out
    }

    /// Reads a decimal number.
    pub fn from_chars(text: &Vec<char>) -> (r: Option<Amount>)
        ensures
            match amount_value(text@) {
                Some(units) => r matches Some(a) && a@ == units,
                None => r is None,
            },
    {
        let n = text.len();
        let signed = n > 0 && (text[0] == '+' || text[0] == '-');
        let negative = n > 0 && text[0] == '-';
        let start: usize = if signed {
            1
        } else {
            0
        };
        let ghost body = if signed {
            text@.drop_first()
        } else {
            text@
        };
        assert(body =~= text@.skip(start as int));
        // The digits before the point.
        let mut whole: i128 = 0;
        let mut too_large = false;
        let mut i: usize = start;
        assert(body.take(0) =~= Seq::<char>::empty());
        while i < n
            invariant
                n == text.len(),
                start <= i <= n,
                body == text@.skip(start as int),
                all_digits(body.take(i - start)),
                0 <= whole <= WHOLE_LIMIT,
                !too_large ==> whole == digits_value(body.take(i - start)),
                too_large ==> digits_value(body.take(i - start)) > WHOLE_LIMIT,
            ensures
                i == n || !is_digit(text@[i as int]),
            decreases n - i,
        {
            let ghost seen = body.take(i - start);
            let ghost next = body.take(i - start + 1);
            assert(body[i - start] == text[i as int]);
            match digit_of(text[i]) {
                None => {
                    break ;
                },
                Some(d) => {
                    assert(next.drop_last() =~= seen);
                    assert(next.last() == text[i as int]);
                    assert forall|j: int| 0 <= j < next.len() implies is_digit(
                        #[trigger] next[j],
                    ) by {
                        if j < seen.len() {
                            assert(next[j] == seen[j]);
                        }
                    }
                    if !too_large {
                        let larger: i128 = 10 * whole + d as i128;
                        if larger > WHOLE_LIMIT {
                            too_large = true;
                        } else {
                            whole = larger;
                        }
                    }
                    i = i + 1;
                },
            }
        }
        let ghost w = i - start;
        proof {
            assert forall|j: int| 0 <= j < w implies is_digit(#[trigger] body[j]) by {
                assert(body.take(w)[j] == body[j]);
            }
            if i < n {
                assert(body[w] == text[i as int]);
            }
            lemma_digit_run(body, w);
        }
        let whole_digits: usize = i - start;
        if i < n {
            if text[i] != '.' {
                return None;
            }
            i = i + 1;
        }
        let first: usize = i;
        let ghost frac = if w < body.len() {
            body.skip(w + 1)
        } else {
            Seq::<char>::empty()
        };
        assert(frac =~= text@.skip(first as int));
        assert(amount_value(text@) is Some ==> all_digits(frac));
        let ghost padded = (frac + zeros()).take(8);
        // The digits after the point: all are checked, the first eight count.
        let mut part: i128 = 0;
        let mut taken: usize = 0;
        assert(padded.take(0) =~= Seq::<char>::empty());
        while i < n
            invariant
                n == text.len(),
                first <= i <= n,
                frac == text@.skip(first as int),
                padded == (frac + zeros()).take(8),
                amount_value(text@) is Some ==> all_digits(frac),
                all_digits(frac.take(i - first)),
                taken <= 8,
                taken == if i - first < 8 { i - first } else { 8 },
                part == digits_value(padded.take(taken as int)),
                0 <= part < pow10(taken as nat),
            decreases n - i,
        {
            let ghost seen = frac.take(i - first);
            let ghost next = frac.take(i - first + 1);
            assert(frac[i - first] == text[i as int]);
            match digit_of(text[i]) {
                None => {
                    assert(!is_digit(frac[i - first]));
                    return None;
                },
                Some(d) => {
                    assert forall|j: int| 0 <= j < next.len() implies is_digit(
                        #[trigger] next[j],
                    ) by {
                        if j < seen.len() {
                            assert(next[j] == seen[j]);
                        }
                    }
                    if taken < 8 {
                        proof {
                            lemma_pow10_bounds(taken as nat);
                            assert(padded.take(taken + 1).drop_last() =~= padded.take(
                                taken as int,
                            ));
                            assert(padded.take(taken + 1).last() == text[i as int]);
                        }
                        part = 10 * part + d as i128;
                        taken = taken + 1;
                    }
                    i = i + 1;
                },
            }
        }
        assert(frac.take(i - first) =~= frac);
        let frac_digits: usize = n - first;
        while taken < 8
            invariant
                taken <= 8,
                taken < 8 ==> frac.len() <= taken,
                padded == (frac + zeros()).take(8),
                part == digits_value(padded.take(taken as int)),
                0 <= part < pow10(taken as nat),
            decreases 8 - taken,
        {
            proof {
                lemma_pow10_bounds(taken as nat);
                assert(padded.take(taken + 1).drop_last() =~= padded.take(taken as int));
                assert(padded.take(taken + 1).last() == '0');
            }
            part = 10 * part;
            taken = taken + 1;
        }
        proof {
            assert(padded.take(8) =~= padded);
            lemma_pow10_bounds(8);
        }
        if whole_digits + frac_digits == 0 || too_large {
            return None;
        }
        let magnitude: i128 = whole * SCALE + part;
        if magnitude > LIMIT {
            return None;
        }
        Some(
            Amount {
                units: if negative {
                    -magnitude
                } else {
                    magnitude
                },
            },
        )
    }

    /// Reads a decimal number.
    pub fn from_str(s: &str) -> (r: Option<Amount>)
        ensures
            match amount_value(s@) {
                Some(units) => r matches Some(a) && a@ == units,
                None => r is None,
            },
    {
        let text = chars_of(s);
        Amount::from_chars(&text)
    }
}

/// The powers of ten up to the eighth are at most `SCALE`, and each is a tenth of
/// the next.
pub proof fn lemma_pow10_bounds(n: nat)
    requires
        n <= 8,
    ensures
        1 <= pow10(n) <= SCALE,
        pow10(n + 1) == 10 * pow10(n),
        n == 8 ==> pow10(n) == SCALE,
{
    reveal_with_fuel(pow10, 10);
}

/// What is reported is a whole number of ten-thousandths, and the one nearest to
/// the amount: it lies at most half a ten-thousandth above the amount and less
/// than half a ten-thousandth below it.
pub proof fn lemma_truncate4_is_nearest(units: int)
    ensures
        truncate4(units) % 10_000 == 0,
        units - 5_000 < truncate4(units) <= units + 5_000,
{
}

/// An amount of whole ten-thousandths is reported as it is.
pub proof fn lemma_truncate4_keeps_four_places(units: int)
    requires
        units % 10_000 == 0,
    ensures
        truncate4(units) == units,
{
}

/// Zeros are worth nothing.
pub proof fn lemma_zeros_are_worth_nothing(s: Seq<char>)
    requires
        forall|i: int| 0 <= i < s.len() ==> #[trigger] s[i] == '0',
    ensures
        digits_value(s) == 0,
    decreases s.len(),
{
    if s.len() > 0 {
        assert(s.last() == s[s.len() - 1]);
        assert forall|i: int| 0 <= i < s.drop_last().len() implies #[trigger] s.drop_last()[i]
            == '0' by {
            assert(s.drop_last()[i] == s[i]);
        }
        lemma_zeros_are_worth_nothing(s.drop_last());
    }
}

/// The digits written for a fraction, filled up with zeros to `places` digits,
/// read as the fraction.
pub proof fn lemma_fraction_reads_back(frac: nat, places: nat, fill: Seq<char>)
    requires
        0 < frac < pow10(places),
        fill.len() >= places,
        forall|i: int| 0 <= i < fill.len() ==> #[trigger] fill[i] == '0',
    ensures
        1 <= fraction_text(frac, places).len() <= places,
        all_digits(fraction_text(frac, places)),
        digits_value((fraction_text(frac, places) + fill).take(places as int)) == frac,
    decreases places,
{
    let text = fraction_text(frac, places);
    if frac % 10 == 0 {
        let shorter = (places - 1) as nat;
        lemma_fraction_reads_back(frac / 10, shorter, fill);
        let filled = (text + fill).take(places as int);
        assert(filled.drop_last() =~= (text + fill).take(shorter as int));
        assert(filled.last() == fill[places - 1 - text.len()]);
    } else {
        lemma_fixed_digits_read_back(frac, places);
        assert((text + fill).take(places as int) =~= text);
    }
}

/// An amount that is written and read again is the same amount, as long as it
/// is within the limit of what is read.
pub proof fn lemma_amount_reads_back(units: int)
    requires
        -LIMIT <= units <= LIMIT,
    ensures
        amount_value(amount_text(units)) == Some(units),
{
    let magnitude = if units < 0 {
        -units
    } else {
        units
    };
    let n = (magnitude / SCALE as int) as nat;
    let frac = (magnitude % SCALE as int) as nat;
    let whole = decimal(n);
    let text = amount_text(units);
    lemma_decimal_reads_back(n);
    lemma_pow10_bounds(8);
    let digits = if frac == 0 {
        Seq::<char>::empty()
    } else {
        fraction_text(frac, 8)
    };
    let tail = if frac == 0 {
        Seq::<char>::empty()
    } else {
        seq!['.'] + digits
    };
    let body = whole + tail;
    if frac == 0 {
        lemma_zeros_are_worth_nothing((digits + zeros()).take(8));
    } else {
        lemma_fraction_reads_back(frac, 8, zeros());
    }
    assert(is_digit(whole[0]));
    if units < 0 {
        assert(text =~= seq!['-'] + body);
        assert(text.drop_first() =~= body);
    } else {
        assert(text =~= body);
        assert(text[0] == whole[0]);
    }
    let w = whole.len() as int;
    assert forall|i: int| 0 <= i < w implies is_digit(#[trigger] body[i]) by {
        assert(body[i] == whole[i]);
    }
    if frac != 0 {
        assert(body[w] == '.');
        assert(body.skip(w + 1) =~= digits);
    }
    lemma_digit_run(body, w);
    assert(body.take(w) =~= whole);
}

} // verus!
