//! Numbers in text: reading them and writing them.

use crate::text::{chars, opt};
use vstd::arithmetic::div_mod::lemma_div_decreases;
use vstd::prelude::*;

verus! {

/// The value of a digit in bases up to thirty-six, letters in either case.
pub open spec fn digit(c: char) -> Option<nat> {
    let n = c as nat;
    if 48 <= n <= 57 {
        Some((n - 48) as nat)
    } else if 97 <= n <= 122 {
        Some((n - 87) as nat)
    } else if 65 <= n <= 90 {
        Some((n - 55) as nat)
    } else {
        None
    }
}

/// Whether every character of `text` is a digit in base `radix`.
pub open spec fn all_digits(text: Seq<char>, radix: nat) -> bool {
    forall|i: int|
        0 <= i < text.len() ==> digit(#[trigger] text[i]) is Some && digit(text[i])->0 < radix
}

/// The number that the digits of `text` denote in base `radix`.
pub open spec fn value(text: Seq<char>, radix: nat) -> nat
    decreases text.len(),
{
    if text.len() == 0 {
        0
    } else {
        value(text.drop_last(), radix) * radix + digit(text.last())->0
    }
}

/// `text` without the plus sign that a number may start with.
pub open spec fn unsigned(text: Seq<char>) -> Seq<char> {
    if text.len() > 0 && text[0] == '+' {
        text.skip(1)
    } else {
        text
    }
}

/// The number that `text` denotes: an optional plus sign, then at least one
/// digit, and a value of at most `max`.
pub open spec fn parsed(text: Seq<char>, radix: nat, max: nat) -> Option<nat> {
    let digits = unsigned(text);
    if digits.len() > 0 && all_digits(digits, radix) && value(digits, radix) <= max {
        Some(value(digits, radix))
    } else {
        None
    }
}

fn digit_of(c: char) -> (d: Option<u32>)
    ensures
        match d {
            Some(d) => digit(c) == Some(d as nat) && d < 36,
            None => digit(c) is None,
        },
{
    let n: u32 = c as u32;
    if 48 <= n && n <= 57 {
        Some(n - 48)
    } else if 97 <= n && n <= 122 {
        Some(n - 87)
    } else if 65 <= n && n <= 90 {
        Some(n - 55)
    } else {
        None
    }
}

/// What `u32::from_str_radix` says of a text that it does not take.
pub uninterp spec fn radix_failure(text: Seq<char>, radix: u32) -> Option<Seq<char>>;

/// `u32::from_str_radix`, and the message of its error: there is one just
/// where the text is not digits of the radix, with a plus sign in front or
/// not, or their number is too large. Which message it is depends on nothing
/// but the arguments, and is only named here. The function panics on a radix
/// outside of 2 to 36.
#[verifier::external_body]
pub(crate) fn why_not(text: &str, radix: u32) -> (out: Option<String>)
    requires
        2 <= radix <= 36,
    ensures
        opt(out) == radix_failure(text@, radix),
        out is Some <==> parsed(text@, radix as nat, u32::MAX as nat) is None,
{
    match u32::from_str_radix(text, radix) {
        Ok(_) => None,
        Err(error) => Some(error.to_string()),
    }
}

/// Reads an unsigned number.
pub fn parse(text: &str, radix: u32, max: u32) -> (out: Option<u32>)
    requires
        2 <= radix <= 36,
    ensures
        match out {
            Some(n) => parsed(text@, radix as nat, max as nat) == Some(n as nat),
            None => parsed(text@, radix as nat, max as nat) is None,
        },
{
    let t = chars(text);
    let start: usize = if t.len() > 0 && t[0] == '+' {
        1
    } else {
        0
    };
    let ghost digits = unsigned(text@);
    assert(digits =~= text@.skip(start as int));
    if start == t.len() {
        return None;
    }
    let mut i: usize = start;
    let mut sum: u64 = 0;
    let mut over: bool = false;
    assert(digits.take(0) =~= Seq::<char>::empty());
    while i < t.len()
        invariant
            start <= i <= t.len(),
            t@ == text@,
            digits == text@.skip(start as int),
            digits == unsigned(text@),
            2 <= radix <= 36,
            all_digits(digits.take(i - start), radix as nat),
            !over ==> sum == value(digits.take(i - start), radix as nat) && sum <= max,
            over ==> value(digits.take(i - start), radix as nat) > max,
        decreases t.len() - i,
    {
        let ghost head = digits.take(i - start);
        let ghost next = digits.take(i + 1 - start);
        assert(next.drop_last() =~= head);
        assert(next.last() == t@[i as int]);
        assert(digits[i - start] == t@[i as int]);
        match digit_of(t[i]) {
            Some(d) => {
                if d >= radix {
                    assert(!all_digits(digits, radix as nat));
                    return None;
                }
                assert(all_digits(next, radix as nat)) by {
                    assert forall|k: int| 0 <= k < next.len() implies digit(#[trigger] next[k]) is Some
                        && digit(next[k])->0 < radix as nat by {
                        if k < head.len() {
                            assert(next[k] == head[k]);
                        }
                    }
                }
                if !over {
                    assert(sum * radix <= 0xffff_ffff * 36) by (nonlinear_arith)
                        requires
                            sum <= 0xffff_ffff,
                            radix <= 36,
                    ;
                    sum = sum * (radix as u64) + d as u64;
                    if sum > max as u64 {
                        over = true;
                    }
                } else {
                    assert(value(head, radix as nat) * radix >= value(head, radix as nat))
                        by (nonlinear_arith)
                        requires
                            radix >= 1,
                    ;
                }
            },
            None => {
                assert(!all_digits(digits, radix as nat));
                return None;
            },
        }
        i += 1;
    }
    assert(digits.take(i - start) =~= digits);
    if over {
        None
    } else {
        Some(sum as u32)
    }
}

/// The character of a digit, letters in lower case.
pub open spec fn digit_char(d: nat) -> char {
    if d < 10 {
        (48 + d) as char
    } else {
        (87 + d) as char
    }
}

/// `n` in base `radix`, without leading zeros.
pub open spec fn digits(n: nat, radix: nat) -> Seq<char>
    decreases n,
{
    if radix < 2 || n < radix {
        seq![digit_char(n)]
    } else {
        proof {
            lemma_div_decreases(n as int, radix as int);
        }
        digits(n / radix, radix).push(digit_char(n % radix))
    }
}

/// `n` in base ten.
pub open spec fn decimal_digits(n: nat) -> Seq<char> {
    digits(n, 10)
}

/// `text` with as many zeros before it as `width` asks for.
pub open spec fn padded(text: Seq<char>, width: nat) -> Seq<char> {
    if text.len() < width {
        Seq::new((width - text.len()) as nat, |i: int| '0') + text
    } else {
        text
    }
}

fn char_of(d: u8) -> (c: char)
    requires
        d < 16,
    ensures
        c == digit_char(d as nat),
{
    if d < 10 {
        (48 + d) as char
    } else {
        (87 + d) as char
    }
}

/// Writes a number in base ten or sixteen, padded with zeros to `width`.
pub fn to_digits(n: u64, radix: u64, width: usize) -> (out: String)
    requires
        radix == 10 || radix == 16,
    ensures
        out@ == padded(digits(n as nat, radix as nat), width as nat),
{
    let mut back: Vec<char> = Vec::new();
    let mut rest: u64 = n;
    assert(digits(n as nat, radix as nat) + back@.reverse() =~= digits(n as nat, radix as nat));
    while rest >= radix
        invariant
            radix == 10 || radix == 16,
            digits(n as nat, radix as nat) == digits(rest as nat, radix as nat) + back@.reverse(),
        decreases rest,
    {
        let ghost tail = back@.reverse();
        let d: u8 = (rest % radix) as u8;
        assert(d as nat == (rest as nat) % (radix as nat));
        let c = char_of(d);
        back.push(c);
        assert(back@.reverse() =~= seq![c] + tail);
        rest = rest / radix;
        assert(digits(rest as nat, radix as nat).push(c) + tail =~= digits(
            rest as nat,
            radix as nat,
        ) + back@.reverse());
    }
    let ghost tail = back@.reverse();
    let c = char_of(rest as u8);
    back.push(c);
    assert(back@.reverse() =~= seq![c] + tail);
    let ghost plain = digits(n as nat, radix as nat);
    assert(plain == back@.reverse());
    let mut out = String::new();
    let mut pad: usize = if back.len() < width {
        width - back.len()
    } else {
        0
    };
    let ghost all = pad as nat;
    while pad > 0
        invariant
            pad <= all,
            out@ == Seq::new((all - pad) as nat, |i: int| '0'),
        decreases pad,
    {
        out.push('0');
        pad -= 1;
        assert(out@ =~= Seq::new((all - pad) as nat, |i: int| '0'));
    }
    let ghost zeros = out@;
    let mut i: usize = back.len();
    while i > 0
        invariant
            i <= back.len(),
            plain == back@.reverse(),
            out@ == zeros + plain.take(back.len() - i),
        decreases i,
    {
        out.push(back[i - 1]);
        assert(plain.take(back.len() - i + 1) =~= plain.take(back.len() - i).push(back@[i - 1]));
        i -= 1;
        assert(out@ =~= zeros + plain.take(back.len() - i));
    }
    assert(plain.take(back.len() as int) =~= plain);
    assert(out@ =~= padded(plain, width as nat));
    out
}

/// Writes a number in base ten.
pub fn to_text(n: u64) -> (out: String)
    ensures
        out@ == decimal_digits(n as nat),
{
    to_digits(n, 10, 0)
}

/// The digits of a number in decimal, behind a minus sign where it is
/// negative.
pub open spec fn signed_digits(n: int) -> Seq<char> {
    if n < 0 {
        "-"@ + decimal_digits((-n) as nat)
    } else {
        decimal_digits(n as nat)
    }
}

/// Writes a signed number in decimal.
pub fn to_signed_text(n: i64) -> (out: String)
    ensures
        out@ == signed_digits(n as int),
{
    if n < 0 {
        let mut out: String = "-".to_owned();
        let size: u64 = (-(n + 1)) as u64 + 1;
        out.append(to_text(size).as_str());
        out
    } else {
        to_text(n as u64)
    }
}

/// A number that was written is read back: its digits are digits of the base
/// and denote it, in base ten as in base sixteen, with zeros or a plus sign in
/// front or without.
pub proof fn law_written_is_read_back(n: nat, radix: nat, width: nat, max: nat)
    requires
        2 <= radix <= 16,
        n <= max,
    ensures
        parsed(digits(n, radix), radix, max) == Some(n),
        parsed(padded(digits(n, radix), width), radix, max) == Some(n),
        parsed(seq!['+'] + digits(n, radix), radix, max) == Some(n),
        padded(digits(n, radix), width).len() >= width,
        padded(digits(n, radix), width).len() == width || padded(digits(n, radix), width)
            == digits(n, radix),
{
    lemma_digits(n, radix);
    let plain = digits(n, radix);
    assert(unsigned(plain) == plain);
    let signed = seq!['+'] + plain;
    assert(signed.skip(1) =~= plain);
    let wide = padded(plain, width);
    if plain.len() < width {
        lemma_leading_zeros(plain, (width - plain.len()) as nat, radix);
        assert(wide[0] == '0');
        assert(unsigned(wide) == wide);
    }
}

/// A number is never written with a needless zero in front.
pub proof fn law_no_needless_zeros(n: nat, radix: nat)
    requires
        2 <= radix <= 16,
    ensures
        digits(n, radix).len() > 0,
        digits(n, radix)[0] == '0' <==> n == 0,
        n < radix ==> digits(n, radix).len() == 1,
    decreases n,
{
    if n >= radix {
        lemma_div_decreases(n as int, radix as int);
        assert(n / radix >= 1) by (nonlinear_arith)
            requires
                n >= radix,
                radix >= 2,
        ;
        law_no_needless_zeros(n / radix, radix);
        assert(digits(n, radix)[0] == digits(n / radix, radix)[0]);
    }
}

/// Two numbers are written alike only where they are the same.
pub proof fn law_written_alike_is_the_same(a: nat, b: nat, radix: nat)
    requires
        2 <= radix <= 16,
        digits(a, radix) == digits(b, radix),
    ensures
        a == b,
{
    lemma_digits(a, radix);
    lemma_digits(b, radix);
}

/// What is no number is not read: an empty text, a lone plus sign, and any
/// text with a character that is no digit of the base. A number beyond the
/// limit is not read either, and what is read is within it.
pub proof fn law_only_numbers_are_read(text: Seq<char>, radix: nat, max: nat)
    requires
        2 <= radix <= 36,
    ensures
        text.len() == 0 ==> parsed(text, radix, max) is None,
        text == seq!['+'] ==> parsed(text, radix, max) is None,
        parsed(text, radix, max) is Some ==> parsed(text, radix, max)->0 <= max,
        forall|i: int|
            #![trigger text[i]]
            0 <= i < text.len() && (i > 0 || text[0] != '+') && !({
                ||| '0' <= text[i] <= '9' && text[i] as int - 48 < radix
                ||| 'a' <= text[i] <= 'z' && text[i] as int - 87 < radix
                ||| 'A' <= text[i] <= 'Z' && text[i] as int - 55 < radix
            }) ==> parsed(text, radix, max) is None,
{
    let plain = unsigned(text);
    assert forall|i: int|
        #![trigger text[i]]
        0 <= i < text.len() && (i > 0 || text[0] != '+') && !({
            ||| '0' <= text[i] <= '9' && text[i] as int - 48 < radix
            ||| 'a' <= text[i] <= 'z' && text[i] as int - 87 < radix
            ||| 'A' <= text[i] <= 'Z' && text[i] as int - 55 < radix
        }) implies parsed(text, radix, max) is None by {
        let at = if text[0] == '+' {
            i - 1
        } else {
            i
        };
        assert(plain[at] == text[i]);
        lemma_digit(text[i]);
        assert(!(digit(plain[at]) is Some && digit(plain[at])->0 < radix));
        assert(!all_digits(plain, radix));
    }
}

proof fn lemma_digit(c: char)
    ensures
        digit(c) is Some ==> {
            ||| '0' <= c <= '9' && digit(c)->0 == c as int - 48
            ||| 'a' <= c <= 'z' && digit(c)->0 == c as int - 87
            ||| 'A' <= c <= 'Z' && digit(c)->0 == c as int - 55
        },
{
}

/// A digit behind a number shifts it by one place of the base, and a letter
/// counts alike in either case.
pub proof fn law_places(text: Seq<char>, c: char, radix: nat)
    ensures
        '0' <= c <= '9' ==> value(text.push(c), radix) == value(text, radix) * radix + (c as int
            - 48),
        'a' <= c <= 'z' ==> value(text.push(c), radix) == value(text, radix) * radix + (c as int
            - 87),
        'A' <= c <= 'Z' ==> value(text.push(c), radix) == value(text, radix) * radix + (c as int
            - 55),
        value(Seq::empty(), radix) == 0,
{
    assert(text.push(c).drop_last() =~= text);
}

/// The digits of a number are digits of its base and denote it, and none of
/// them is a sign or a mark.
pub proof fn lemma_digits(n: nat, radix: nat)
    requires
        2 <= radix <= 16,
    ensures
        digits(n, radix).len() > 0,
        all_digits(digits(n, radix), radix),
        value(digits(n, radix), radix) == n,
        forall|i: int|
            #![trigger digits(n, radix)[i]]
            0 <= i < digits(n, radix).len() ==> {
                ||| '0' <= digits(n, radix)[i] <= '9'
                ||| 'a' <= digits(n, radix)[i] <= 'f'
            },
    decreases n,
{
    let text = digits(n, radix);
    if n < radix {
        assert(text.drop_last() =~= Seq::<char>::empty());
        assert(value(text.drop_last(), radix) * radix == 0) by (nonlinear_arith)
            requires
                value(text.drop_last(), radix) == 0,
        ;
        assert(text.last() == digit_char(n));
    } else {
        lemma_div_decreases(n as int, radix as int);
        lemma_digits(n / radix, radix);
        let head = digits(n / radix, radix);
        let last = digit_char(n % radix);
        assert(n % radix < radix) by (nonlinear_arith)
            requires
                radix >= 2,
        ;
        assert(text.drop_last() =~= head);
        assert((n / radix) * radix + n % radix == n) by (nonlinear_arith)
            requires
                radix >= 2,
        ;
        assert(digit(last) == Some(n % radix));
        assert(value(text, radix) == value(head, radix) * radix + n % radix);
        assert forall|i: int| 0 <= i < text.len() implies digit(#[trigger] text[i]) is Some
            && digit(text[i])->0 < radix by {
            if i < head.len() {
                assert(text[i] == head[i]);
            }
        }
        assert forall|i: int|
            #![trigger text[i]]
            0 <= i < text.len() implies '0' <= text[i] <= '9' || 'a' <= text[i] <= 'f' by {
            if i < head.len() {
                assert(text[i] == head[i]);
            }
        }
    }
}

proof fn lemma_leading_zeros(text: Seq<char>, count: nat, radix: nat)
    requires
        2 <= radix,
        text.len() > 0,
        all_digits(text, radix),
    ensures
        all_digits(Seq::new(count, |i: int| '0') + text, radix),
        value(Seq::new(count, |i: int| '0') + text, radix) == value(text, radix),
    decreases text.len(),
{
    let zeros = Seq::new(count, |i: int| '0');
    let all = zeros + text;
    assert forall|i: int| 0 <= i < all.len() implies digit(#[trigger] all[i]) is Some
        && digit(all[i])->0 < radix by {
        if i >= zeros.len() {
            assert(all[i] == text[i - zeros.len()]);
        }
    }
    assert(all.drop_last() =~= zeros + text.drop_last());
    let short = text.drop_last();
    if short.len() > 0 {
        assert forall|i: int| 0 <= i < short.len() implies digit(#[trigger] short[i]) is Some
            && digit(short[i])->0 < radix by {
            assert(short[i] == text[i]);
        }
        lemma_leading_zeros(short, count, radix);
    } else {
        assert(zeros + short =~= zeros);
        lemma_zeros(count, radix);
        assert(value(short, radix) == 0);
    }
}

proof fn lemma_zeros(count: nat, radix: nat)
    ensures
        value(Seq::new(count, |i: int| '0'), radix) == 0,
    decreases count,
{
    let zeros = Seq::new(count, |i: int| '0');
    if count > 0 {
        lemma_zeros((count - 1) as nat, radix);
        assert(zeros.drop_last() =~= Seq::new((count - 1) as nat, |i: int| '0'));
        assert(0 * radix == 0) by (nonlinear_arith);
    }
}

/// A signed number is written as its size, behind a minus sign exactly where
/// it is negative, so that two are written alike only where they are the same.
pub proof fn law_sign_is_written(a: int, b: int)
    ensures
        signed_digits(a)[0] == '-' <==> a < 0,
        a > 0 ==> signed_digits(-a).skip(1) == signed_digits(a),
        signed_digits(a) == signed_digits(b) ==> a == b,
        !signed_digits(a).contains(':'),
{
    reveal_strlit("-");
    lemma_sign(a);
    lemma_sign(b);
    if a > 0 {
        assert(signed_digits(-a).skip(1) =~= signed_digits(a));
    }
    if signed_digits(a) == signed_digits(b) {
        if a < 0 {
            assert(signed_digits(a).skip(1) =~= decimal_digits((-a) as nat));
            assert(signed_digits(b).skip(1) =~= decimal_digits((-b) as nat));
            law_written_alike_is_the_same((-a) as nat, (-b) as nat, 10);
        } else {
            law_written_alike_is_the_same(a as nat, b as nat, 10);
        }
    }
}

proof fn lemma_sign(n: int)
    ensures
        signed_digits(n).len() > 0,
        signed_digits(n)[0] == '-' <==> n < 0,
        !signed_digits(n).contains(':'),
{
    reveal_strlit("-");
    let size = (if n < 0 {
        -n
    } else {
        n
    }) as nat;
    lemma_digits(size, 10);
    let text = signed_digits(n);
    assert forall|i: int| 0 <= i < text.len() implies #[trigger] text[i] != ':' by {
        if n < 0 {
            if i > 0 {
                assert(text[i] == decimal_digits(size)[i - 1]);
            }
        } else {
            assert(text[i] == decimal_digits(size)[i]);
        }
    }
    if n >= 0 {
        assert(text[0] == decimal_digits(size)[0]);
    }
}

} // verus!
