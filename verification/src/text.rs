//! Reading and writing plain text as bytes: splitting a line into words and
//! turning decimal numbers into values and back.

use vstd::prelude::*;

verus! {

/// Whether `b` is a blank: a space, a tab, a line feed, a vertical tab, a
/// form feed or a carriage return.
pub open spec fn is_blank(b: u8) -> bool {
    b == 32 || (9 <= b <= 13)
}

/// The length of the word at the start of `s`: the number of bytes before
/// the first blank.
pub open spec fn word_len(s: Seq<u8>) -> nat
    decreases s.len(),
{
    if s.len() == 0 || is_blank(s[0]) {
        0
    } else {
        1 + word_len(s.skip(1))
    }
}

/// The words of `s`: its longest stretches of bytes that are not blanks, in order.
pub open spec fn words_of(s: Seq<u8>) -> Seq<Seq<u8>>
    decreases s.len(),
{
    if s.len() == 0 {
        Seq::empty()
    } else if is_blank(s[0]) {
        words_of(s.skip(1))
    } else {
        proof {
            lemma_word_len_bound(s);
        }
        seq![s.take(word_len(s) as int)] + words_of(s.skip(word_len(s) as int))
    }
}

/// The contents of each of `words`.
pub open spec fn contents(words: Seq<Vec<u8>>) -> Seq<Seq<u8>> {
    words.map_values(|w: Vec<u8>| w@)
}

/// A word is no longer than the text it starts.
pub proof fn lemma_word_len_bound(s: Seq<u8>)
    ensures
        word_len(s) <= s.len(),
        s.len() > 0 && !is_blank(s[0]) ==> word_len(s) >= 1,
    decreases s.len(),
{
    if s.len() > 0 && !is_blank(s[0]) {
        lemma_word_len_bound(s.skip(1));
    }
}

/// Whether `b` is blank.
pub fn blank(b: u8) -> (r: bool)
    ensures
        r == is_blank(b),
{
    b == 32 || (9 <= b && b <= 13)
}

/// The words of `bytes`, each copied out.
pub fn split_words(bytes: &[u8]) -> (words: Vec<Vec<u8>>)
    ensures
        contents(words@) == words_of(bytes@),
{
    let n = bytes.len();
    let mut words: Vec<Vec<u8>> = Vec::new();
    let mut i: usize = 0;
    proof {
        assert(bytes@.skip(0) =~= bytes@);
        assert(contents(words@) =~= Seq::<Seq<u8>>::empty());
    }
    while i < n
        invariant
            n == bytes@.len(),
            i <= n,
            words_of(bytes@) == contents(words@) + words_of(bytes@.skip(i as int)),
        decreases n - i,
    {
        let ghost rest = bytes@.skip(i as int);
        if blank(bytes[i]) {
            proof {
                assert(rest.skip(1) =~= bytes@.skip(i + 1));
            }
            i += 1;
        } else {
            let mut word: Vec<u8> = Vec::new();
            let mut j: usize = i;
            proof {
                assert(rest.take(0) =~= Seq::<u8>::empty());
                assert(bytes@.skip(j as int) =~= rest.skip(0));
            }
            while j < n && !blank(bytes[j])
                invariant
                    n == bytes@.len(),
                    i <= j <= n,
                    rest == bytes@.skip(i as int),
                    word@ == rest.take(j - i),
                    word_len(rest) == (j - i) + word_len(bytes@.skip(j as int)),
                decreases n - j,
            {
                proof {
                    assert(bytes@.skip(j as int).skip(1) =~= bytes@.skip(j + 1));
                    assert(rest.take(j - i).push(bytes@[j as int]) =~= rest.take(j + 1 - i));
                }
                word.push(bytes[j]);
                j += 1;
            }
            proof {
                assert(word_len(bytes@.skip(j as int)) == 0);
                assert(rest.skip(j - i) =~= bytes@.skip(j as int));
            }
            let ghost before = contents(words@);
            words.push(word);
            proof {
                assert(contents(words@) =~= before.push(rest.take(j - i)));
                assert(before + (seq![rest.take(j - i)] + words_of(rest.skip(j - i))) =~= (
                before.push(rest.take(j - i))) + words_of(rest.skip(j - i)));
            }
            i = j;
        }
    }
    proof {
        assert(bytes@.skip(n as int) =~= Seq::<u8>::empty());
        assert(contents(words@) + Seq::<Seq<u8>>::empty() =~= contents(words@));
    }
    words
}

/// Whether `b` is one of the ten digits.
pub open spec fn is_digit(b: u8) -> bool {
    48 <= b <= 57
}

/// Whether `s` is made of digits alone.
pub open spec fn all_digits(s: Seq<u8>) -> bool {
    forall|i: int| 0 <= i < s.len() ==> is_digit(#[trigger] s[i])
}

/// The number that the digits `s` write in base ten; zero for no digits.
pub open spec fn digits_value(s: Seq<u8>) -> nat
    decreases s.len(),
{
    if s.len() == 0 {
        0
    } else {
        (digits_value(s.drop_last()) * 10 + (s.last() - 48)) as nat
    }
}

/// The digits of `s` once a leading plus sign is taken off.
pub open spec fn unsigned_body(s: Seq<u8>) -> Seq<u8> {
    if s.len() > 0 && s[0] == 43 {
        s.skip(1)
    } else {
        s
    }
}

/// The number that `s` writes, if `s` is a decimal number no greater than
/// `max`: digits, at least one, after at most one plus sign.
pub open spec fn parse_decimal(s: Seq<u8>, max: nat) -> Option<nat> {
    let body = unsigned_body(s);
    if body.len() > 0 && all_digits(body) && digits_value(body) <= max {
        Some(digits_value(body))
    } else {
        None
    }
}

/// More digits never write a smaller number.
pub proof fn lemma_digits_value_grows(s: Seq<u8>, k: int)
    requires
        all_digits(s),
        0 <= k <= s.len(),
    ensures
        digits_value(s.take(k)) <= digits_value(s),
    decreases s.len() - k,
{
    if k < s.len() {
        lemma_digits_value_grows(s, k + 1);
        assert(s.take(k + 1).drop_last() =~= s.take(k));
        assert(is_digit(s[k]));
    } else {
        assert(s.take(k) =~= s);
    }
}

/// Reads `word` as a decimal number no greater than `u64::MAX`.
pub fn parse_u64(word: &Vec<u8>) -> (r: Option<u64>)
    ensures
        r.is_some() == parse_decimal(word@, u64::MAX as nat).is_some(),
        r.is_some() ==> r.unwrap() == parse_decimal(word@, u64::MAX as nat).unwrap(),
{
    let n = word.len();
    let start: usize = if n > 0 && word[0] == 43 {
        1
    } else {
        0
    };
    let ghost body = unsigned_body(word@);
    assert(body =~= word@.skip(start as int));
    if start == n {
        return None;
    }
    let mut value: u64 = 0;
    let mut i: usize = start;
    assert(body.take(0) =~= Seq::<u8>::empty());
    while i < n
        invariant
            n == word@.len(),
            start <= i <= n,
            body == word@.skip(start as int),
            body == unsigned_body(word@),
            all_digits(body.take(i - start)),
            value == digits_value(body.take(i - start)),
        decreases n - i,
    {
        let b = word[i];
        assert(body[i - start] == b);
        if !(48 <= b && b <= 57) {
            return None;
        }
        proof {
            assert(body.take(i + 1 - start).drop_last() =~= body.take(i - start));
            assert(all_digits(body.take(i + 1 - start))) by {
                assert forall|k: int| 0 <= k < i + 1 - start implies is_digit(
                    #[trigger] body.take(i + 1 - start)[k],
                ) by {
                    if k < i - start {
                        assert(body.take(i - start)[k] == body[k]);
                    }
                }
            }
        }
        let ghost next = digits_value(body.take(i + 1 - start));
        if value > (u64::MAX - (b - 48) as u64) / 10 {
            proof {
                assert(next > u64::MAX);
                if all_digits(body) {
                    lemma_digits_value_grows(body, i + 1 - start);
                }
            }
            return None;
        }
        value = value * 10 + (b - 48) as u64;
        i += 1;
    }
    assert(body.take(n - start) =~= body);
    Some(value)
}

/// Reads `word` as a decimal number no greater than `u32::MAX`.
pub fn parse_u32(word: &Vec<u8>) -> (r: Option<u32>)
    ensures
        r.is_some() == parse_decimal(word@, u32::MAX as nat).is_some(),
        r.is_some() ==> r.unwrap() == parse_decimal(word@, u32::MAX as nat).unwrap(),
{
    match parse_u64(word) {
        Some(v) => if v <= 0xFFFF_FFFF {
            Some(v as u32)
        } else {
            None
        },
        None => None,
    }
}

/// The digits that write `n` in base ten, without leading zeros; `0` for zero.
pub open spec fn decimal_of(n: nat) -> Seq<u8>
    decreases n,
{
    if n < 10 {
        seq![(48 + n) as u8]
    } else {
        decimal_of(n / 10).push((48 + n % 10) as u8)
    }
}

/// Reading the digits that write a number gives the number back.
pub proof fn lemma_decimal_round_trip(n: nat)
    ensures
        all_digits(decimal_of(n)),
        decimal_of(n).len() > 0,
        digits_value(decimal_of(n)) == n,
        decimal_of(n)[0] != 43,
    decreases n,
{
    if n < 10 {
        let s = seq![(48 + n) as u8];
        assert(s.drop_last() =~= Seq::<u8>::empty());
        assert(digits_value(s.drop_last()) == 0);
        assert(s.last() == 48 + n);
    } else {
        lemma_decimal_round_trip(n / 10);
        let s = decimal_of(n / 10).push((48 + n % 10) as u8);
        assert(s.drop_last() =~= decimal_of(n / 10));
        assert(s.last() == 48 + n % 10);
        assert(s[0] == decimal_of(n / 10)[0]);
    }
}

/// Appends the digits that write `n` to `out`.
pub fn push_decimal(out: &mut Vec<u8>, n: u32)
    ensures
        final(out)@ == old(out)@ + decimal_of(n as nat),
    decreases n,
{
    if n < 10 {
        out.push(48 + n as u8);
        assert(out@ =~= old(out)@ + decimal_of(n as nat));
    } else {
        push_decimal(out, n / 10);
        out.push(48 + (n % 10) as u8);
        assert(out@ =~= old(out)@ + decimal_of(n as nat));
    }
}

/// Whether `word` holds exactly the bytes of `expected`.
pub fn word_is<const N: usize>(word: &Vec<u8>, expected: &[u8; N]) -> (r: bool)
    ensures
        r == (word@ == expected@),
{
    let n = word.len();
    if n != N {
        return false;
    }
    let mut i: usize = 0;
    while i < n
        invariant
            n == word@.len(),
            n == expected@.len(),
            i <= n,
            forall|k: int| 0 <= k < i ==> word@[k] == expected@[k],
        decreases n - i,
    {
        if word[i] != expected[i] {
            return false;
        }
        i += 1;
    }
    assert(word@ =~= expected@);
    true
}

} // verus!
