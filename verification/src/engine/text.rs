//! Text as sequences of characters: fields between commas and decimal digits.

use vstd::prelude::*;

verus! {

/// Whether `c` is one of the ten decimal digits.
pub open spec fn is_digit(c: char) -> bool {
    '0' <= c && c <= '9'
}

/// The number that the digit `c` stands for.
pub open spec fn digit_value(c: char) -> int {
    c as int - '0' as int
}

/// Whether `s` holds decimal digits and nothing else.
pub open spec fn all_digits(s: Seq<char>) -> bool {
    forall|i: int| 0 <= i < s.len() ==> is_digit(#[trigger] s[i])
}

/// The number that the digits of `s` write in base ten; 0 for the empty text.
pub open spec fn digits_value(s: Seq<char>) -> int
    decreases s.len(),
{
    if s.len() == 0 {
        0
    } else {
        10 * digits_value(s.drop_last()) + digit_value(s.last())
    }
}

/// How many digits `s` starts with.
pub open spec fn digit_run(s: Seq<char>) -> int
    decreases s.len(),
{
    if s.len() > 0 && is_digit(s[0]) {
        1 + digit_run(s.drop_first())
    } else {
        0
    }
}

/// The fields of `s`: the pieces between its commas, in order. A text without a
/// comma is one field, and so is the empty text.
pub open spec fn split_fields(s: Seq<char>) -> Seq<Seq<char>>
    decreases s.len(),
{
    if s.len() == 0 {
        seq![Seq::<char>::empty()]
    } else {
        let before = split_fields(s.drop_last());
        if s.last() == ',' {
            before.push(Seq::<char>::empty())
        } else {
            before.update(before.len() - 1, before.last().push(s.last()))
        }
    }
}

/// The digit that stands for `d`, a number below ten.
pub open spec fn digit_char(d: int) -> char {
    (d + '0' as int) as char
}

/// The number `n` in decimal digits, without leading zeros.
pub open spec fn decimal(n: nat) -> Seq<char>
    decreases n,
{
    if n < 10 {
        seq![digit_char(n as int)]
    } else {
        decimal(n / 10).push(digit_char((n % 10) as int))
    }
}

/// The last `places` decimal digits of `n`, zeros in front where it has fewer.
pub open spec fn fixed_digits(n: nat, places: nat) -> Seq<char>
    decreases places,
{
    if places == 0 {
        Seq::empty()
    } else {
        fixed_digits(n / 10, (places - 1) as nat).push(digit_char((n % 10) as int))
    }
}

/// The texts that a vector of character vectors holds.
pub open spec fn texts(v: Seq<Vec<char>>) -> Seq<Seq<char>> {
    v.map_values(|f: Vec<char>| f@)
}

/// What an unsigned decimal number `s` is worth, if it is one and does not
/// exceed `max`: an optional `+`, then one digit or more.
pub open spec fn unsigned_value(s: Seq<char>, max: int) -> Option<int> {
    let body = if s.len() > 0 && s[0] == '+' {
        s.drop_first()
    } else {
        s
    };
    if body.len() > 0 && all_digits(body) && digits_value(body) <= max {
        Some(digits_value(body))
    } else {
        None
    }
}

/// A number written in digits is not negative.
pub proof fn lemma_digits_value_nonnegative(s: Seq<char>)
    requires
        all_digits(s),
    ensures
        digits_value(s) >= 0,
    decreases s.len(),
{
    if s.len() > 0 {
        assert(is_digit(s[s.len() - 1]));
        assert forall|i: int| 0 <= i < s.drop_last().len() implies is_digit(
            #[trigger] s.drop_last()[i],
        ) by {
            assert(s.drop_last()[i] == s[i]);
        }
        lemma_digits_value_nonnegative(s.drop_last());
    }
}

/// The first `k` digits of a number are worth no more than the whole number.
pub proof fn lemma_digits_value_prefix(s: Seq<char>, k: int)
    requires
        all_digits(s),
        0 <= k <= s.len(),
    ensures
        digits_value(s.take(k)) <= digits_value(s),
    decreases s.len(),
{
    if k == s.len() {
        assert(s.take(k) =~= s);
    } else {
        let front = s.drop_last();
        assert(is_digit(s[s.len() - 1]));
        assert forall|i: int| 0 <= i < front.len() implies is_digit(#[trigger] front[i]) by {
            assert(front[i] == s[i]);
        }
        lemma_digits_value_prefix(front, k);
        lemma_digits_value_nonnegative(front);
        assert(front.take(k) =~= s.take(k));
    }
}

/// Where the digits at the start of `s` end: after `k` of them, if the first `k`
/// characters are digits and the next one, if any, is none.
pub proof fn lemma_digit_run(s: Seq<char>, k: int)
    requires
        0 <= k <= s.len(),
        forall|i: int| 0 <= i < k ==> is_digit(#[trigger] s[i]),
        k == s.len() || !is_digit(s[k]),
    ensures
        digit_run(s) == k,
    decreases k,
{
    if k > 0 {
        let rest = s.drop_first();
        assert forall|i: int| 0 <= i < k - 1 implies is_digit(#[trigger] rest[i]) by {
            assert(rest[i] == s[i + 1]);
        }
        if k < s.len() {
            assert(rest[k - 1] == s[k]);
        }
        lemma_digit_run(rest, k - 1);
    }
}

/// The first field of a text is the text up to its first comma: it is a prefix
/// of the text, and the whole text where there is one field only.
pub proof fn lemma_first_field(s: Seq<char>)
    ensures
        split_fields(s).len() >= 1,
        split_fields(s)[0].len() <= s.len(),
        split_fields(s)[0] == s.take(split_fields(s)[0].len() as int),
        split_fields(s).len() == 1 ==> split_fields(s)[0] == s,
    decreases s.len(),
{
    if s.len() == 0 {
        assert(s.take(0) =~= s);
    } else {
        let front = s.drop_last();
        let before = split_fields(front);
        lemma_first_field(front);
        let n = before[0].len() as int;
        assert(front.take(n) =~= s.take(n));
        if s.last() != ',' && before.len() == 1 {
            assert(before[0].push(s.last()) =~= s);
            assert(s.take(s.len() as int) =~= s);
        }
    }
}

/// The fields `fields` with a comma between each two of them.
pub open spec fn join_fields(fields: Seq<Seq<char>>) -> Seq<char>
    decreases fields.len(),
{
    if fields.len() == 0 {
        Seq::empty()
    } else if fields.len() == 1 {
        fields[0]
    } else {
        join_fields(fields.drop_last()) + seq![','] + fields.last()
    }
}

/// Cutting a text at its commas loses nothing but the commas: no field holds
/// one, and the fields with commas between them are the text again.
pub proof fn lemma_split_fields_joins(s: Seq<char>)
    ensures
        split_fields(s).len() >= 1,
        forall|i: int, j: int|
            0 <= i < split_fields(s).len() && 0 <= j < split_fields(s)[i].len()
                ==> #[trigger] split_fields(s)[i][j] != ',',
        join_fields(split_fields(s)) == s,
    decreases s.len(),
{
    if s.len() == 0 {
    } else {
        let front = s.drop_last();
        let before = split_fields(front);
        let after = split_fields(s);
        lemma_split_fields_joins(front);
        if s.last() == ',' {
            assert(after.drop_last() =~= before);
            assert(join_fields(after) =~= join_fields(before) + seq![','] + Seq::<char>::empty());
            assert(front + seq![','] =~= s);
        } else {
            let grown = before.last().push(s.last());
            assert(after.last() == grown);
            if before.len() == 1 {
                assert(join_fields(after) =~= s);
            } else {
                assert(after.drop_last() =~= before.drop_last());
                assert(join_fields(after) =~= join_fields(before.drop_last()) + seq![',']
                    + grown);
                assert(join_fields(after) =~= join_fields(before).push(s.last()));
                assert(front.push(s.last()) =~= s);
            }
            assert forall|i: int, j: int|
                0 <= i < after.len() && 0 <= j < after[i].len() implies #[trigger] after[i][j]
                != ',' by {
                if i < before.len() - 1 {
                    assert(after[i][j] == before[i][j]);
                } else if j < before.last().len() {
                    assert(after[i][j] == before[i][j]);
                }
            }
        }
    }
}

/// A number below ten is written as the digit that stands for it.
pub proof fn lemma_digit_char(d: int)
    requires
        0 <= d < 10,
    ensures
        is_digit(digit_char(d)),
        digit_value(digit_char(d)) == d,
{
}

/// A number written in decimal digits reads as itself.
pub proof fn lemma_decimal_reads_back(n: nat)
    ensures
        decimal(n).len() >= 1,
        all_digits(decimal(n)),
        digits_value(decimal(n)) == n,
    decreases n,
{
    if n < 10 {
        lemma_digit_char(n as int);
        let s = decimal(n);
        assert(s.drop_last() =~= Seq::<char>::empty());
        assert(s.last() == digit_char(n as int));
        assert(digits_value(s.drop_last()) == 0);
    } else {
        lemma_decimal_reads_back(n / 10);
        lemma_digit_char((n % 10) as int);
        let front = decimal(n / 10);
        let s = decimal(n);
        assert(s.drop_last() =~= front);
        assert(s.last() == digit_char((n % 10) as int));
        assert forall|i: int| 0 <= i < s.len() implies is_digit(#[trigger] s[i]) by {
            if i < front.len() {
                assert(s[i] == front[i]);
            }
        }
    }
}

/// Ten to the power `n`.
pub open spec fn pow10(n: nat) -> int
    decreases n,
{
    if n == 0 {
        1
    } else {
        10 * pow10((n - 1) as nat)
    }
}

/// The last `places` digits of a number read as the number, where it has no
/// more digits than that.
pub proof fn lemma_fixed_digits_read_back(n: nat, places: nat)
    requires
        n < pow10(places),
    ensures
        fixed_digits(n, places).len() == places,
        all_digits(fixed_digits(n, places)),
        digits_value(fixed_digits(n, places)) == n,
    decreases places,
{
    if places > 0 {
        lemma_fixed_digits_read_back(n / 10, (places - 1) as nat);
        lemma_digit_char((n % 10) as int);
        let front = fixed_digits(n / 10, (places - 1) as nat);
        let s = fixed_digits(n, places);
        assert(s.drop_last() =~= front);
        assert forall|i: int| 0 <= i < s.len() implies is_digit(#[trigger] s[i]) by {
            if i < front.len() {
                assert(s[i] == front[i]);
            }
        }
    }
}

/// The number that the digit `c` stands for, if it is a digit.
pub fn digit_of(c: char) -> (r: Option<u8>)
    ensures
        match r {
            Some(d) => is_digit(c) && d == digit_value(c),
            None => !is_digit(c),
        },
{
    if '0' <= c && c <= '9' {
        Some((c as u32 - '0' as u32) as u8)
    } else {
        None
    }
}

/// The characters of `s`.
pub fn chars_of(s: &str) -> (v: Vec<char>)
    ensures
        v@ == s@,
{
    let mut v: Vec<char> = Vec::new();
    for c in it: s.chars()
        invariant
            v@ == it.seq().take(it.index() as int),
            it.seq() == s@,
    {
        v.push(c);
    }
    v
}

/// Whether `text` reads exactly as `word`.
pub fn text_is(text: &Vec<char>, word: &str) -> (r: bool)
    ensures
        r == (text@ == word@),
{
    let other = chars_of(word);
    if text.len() != other.len() {
        return false;
    }
    let mut i: usize = 0;
    while i < text.len()
        invariant
            i <= text.len(),
            text.len() == other.len(),
            other@ == word@,
            forall|j: int| 0 <= j < i ==> text@[j] == other@[j],
        decreases text.len() - i,
    {
        if text[i] != other[i] {
            return false;
        }
        i = i + 1;
    }
    assert(text@ =~= other@);
    true
}

/// Cuts `text` at its commas.
pub fn fields_of(text: &Vec<char>) -> (fields: Vec<Vec<char>>)
    ensures
        texts(fields@) == split_fields(text@),
{
    let mut done: Vec<Vec<char>> = Vec::new();
    let mut current: Vec<char> = Vec::new();
    let mut i: usize = 0;
    assert(text@.take(0) =~= Seq::<char>::empty());
    assert(texts(done@).push(current@) =~= seq![Seq::<char>::empty()]);
    while i < text.len()
        invariant
            i <= text.len(),
            texts(done@).push(current@) == split_fields(text@.take(i as int)),
        decreases text.len() - i,
    {
        let c = text[i];
        let ghost before = texts(done@).push(current@);
        let ghost upto = text@.take(i as int + 1);
        assert(upto.drop_last() =~= text@.take(i as int));
        assert(upto.last() == c);
        if c == ',' {
            done.push(current);
            current = Vec::new();
            assert(texts(done@).push(current@) =~= before.push(Seq::<char>::empty()));
        } else {
            current.push(c);
            assert(texts(done@).push(current@) =~= before.update(
                before.len() - 1,
                before.last().push(c),
            ));
        }
        i = i + 1;
    }
    assert(text@.take(i as int) =~= text@);
    let ghost before = texts(done@).push(current@);
    done.push(current);
    assert(texts(done@) =~= before);
    done
}

/// Reads `text` as an unsigned decimal number of at most `max`.
pub fn parse_unsigned(text: &Vec<char>, max: u64) -> (r: Option<u64>)
    requires
        max <= 1_000_000_000_000_000_000,
    ensures
        match unsigned_value(text@, max as int) {
            Some(n) => r matches Some(v) && v == n,
            None => r is None,
        },
{
    let start: usize = if text.len() > 0 && text[0] == '+' {
        1
    } else {
        0
    };
    let ghost body = if text@.len() > 0 && text@[0] == '+' {
        text@.drop_first()
    } else {
        text@
    };
    assert(body =~= text@.skip(start as int));
    if start == text.len() {
        return None;
    }
    let mut value: u64 = 0;
    let mut i: usize = start;
    assert(body.take(0) =~= Seq::<char>::empty());
    while i < text.len()
        invariant
            start <= i <= text.len(),
            body == text@.skip(start as int),
            body == if text@.len() > 0 && text@[0] == '+' {
                text@.drop_first()
            } else {
                text@
            },
            all_digits(body.take(i - start)),
            value == digits_value(body.take(i - start)),
            value <= max,
            max <= 1_000_000_000_000_000_000,
        decreases text.len() - i,
    {
        let c = text[i];
        let ghost seen = body.take(i - start);
        let ghost next = body.take(i - start + 1);
        assert(body[i - start] == c);
        assert(next.drop_last() =~= seen);
        assert(next.last() == c);
        let d: u64 = match digit_of(c) {
            Some(d) => d as u64,
            None => {
                assert(!is_digit(body[i - start]));
                return None;
            },
        };
        assert forall|j: int| 0 <= j < next.len() implies is_digit(#[trigger] next[j]) by {
            if j < seen.len() {
                assert(next[j] == seen[j]);
            }
        }
        let larger: u64 = 10 * value + d;
        if larger > max {
            proof {
                if all_digits(body) {
                    lemma_digits_value_prefix(body, i - start + 1);
                }
            }
            return None;
        }
        value = larger;
        i = i + 1;
    }
    assert(body.take(i - start) =~= body);
    Some(value)
}

/// The digit that stands for `d`, as a text.
pub fn digit_text(d: u8) -> (r: &'static str)
    requires
        d < 10,
    ensures
        r@ == seq![digit_char(d as int)],
{
    proof {
        reveal_strlit("0");
        reveal_strlit("1");
        reveal_strlit("2");
        reveal_strlit("3");
        reveal_strlit("4");
        reveal_strlit("5");
        reveal_strlit("6");
        reveal_strlit("7");
        reveal_strlit("8");
        reveal_strlit("9");
    }
    let r = match d {
        0 => "0",
        1 => "1",
        2 => "2",
        3 => "3",
        4 => "4",
        5 => "5",
        6 => "6",
        7 => "7",
        8 => "8",
        _ => "9",
    };
    assert(r@ =~= seq![digit_char(d as int)]);
    r
}

/// Appends `n` in decimal digits to `out`.
pub fn push_decimal(out: &mut String, n: u128)
    ensures
        final(out)@ == old(out)@ + decimal(n as nat),
    decreases n,
{
    if n >= 10 {
        push_decimal(out, n / 10);
    }
    out.append(digit_text((n % 10) as u8));
    assert(out@ =~= old(out)@ + decimal(n as nat));
}

/// Appends the last `places` decimal digits of `n` to `out`.
pub fn push_fixed_digits(out: &mut String, n: u128, places: u8)
    ensures
        final(out)@ == old(out)@ + fixed_digits(n as nat, places as nat),
    decreases places,
{
    if places > 0 {
        push_fixed_digits(out, n / 10, places - 1);
        out.append(digit_text((n % 10) as u8));
    }
    assert(out@ =~= old(out)@ + fixed_digits(n as nat, places as nat));
}

} // verus!
