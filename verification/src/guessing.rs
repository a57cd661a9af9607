//! The decisions of a number-guessing game: a secret between 1 and 100, and
//! what each line that the player types means.
use rand::Rng;
use vstd::prelude::*;
use vstd::string::StrSliceExecFns;

verus! {

/// The characters with the Unicode `White_Space` property, which
/// `char::is_whitespace` and `str::trim` go by.
pub open spec fn is_white_space(c: char) -> bool {
    ||| '\u{9}' <= c <= '\u{d}'
    ||| c == ' '
    ||| c == '\u{85}'
    ||| c == '\u{a0}'
    ||| c == '\u{1680}'
    ||| '\u{2000}' <= c <= '\u{200a}'
    ||| c == '\u{2028}'
    ||| c == '\u{2029}'
    ||| c == '\u{202f}'
    ||| c == '\u{205f}'
    ||| c == '\u{3000}'
}

/// The index of the first character at or after `i` that is not white space,
/// or the length of `s`.
pub open spec fn skip_white_space(s: Seq<char>, i: int) -> int
    decreases s.len() - i,
{
    if i >= s.len() {
        s.len() as int
    } else if is_white_space(s[i]) {
        skip_white_space(s, i + 1)
    } else {
        i
    }
}

/// The end of `s.take(j)` once the white space at its end is dropped.
pub open spec fn end_before_white_space(s: Seq<char>, j: int) -> int
    decreases j,
{
    if j <= 0 {
        0
    } else if is_white_space(s[j - 1]) {
        end_before_white_space(s, j - 1)
    } else {
        j
    }
}

/// `s` without its leading and trailing white space, as `str::trim` gives it.
pub open spec fn trimmed(s: Seq<char>) -> Seq<char> {
    let t = s.skip(skip_white_space(s, 0));
    t.take(end_before_white_space(t, t.len() as int))
}

proof fn lemma_skip_white_space(s: Seq<char>, i: int)
    requires
        0 <= i <= s.len(),
    ensures
        i <= skip_white_space(s, i) <= s.len(),
        forall|k: int| i <= k < skip_white_space(s, i) ==> is_white_space(#[trigger] s[k]),
        skip_white_space(s, i) < s.len() ==> !is_white_space(s[skip_white_space(s, i)]),
    decreases s.len() - i,
{
    if i < s.len() && is_white_space(s[i]) {
        lemma_skip_white_space(s, i + 1);
    }
}

proof fn lemma_end_before_white_space(s: Seq<char>, j: int)
    requires
        0 <= j <= s.len(),
    ensures
        0 <= end_before_white_space(s, j) <= j,
        forall|k: int| end_before_white_space(s, j) <= k < j ==> is_white_space(#[trigger] s[k]),
        end_before_white_space(s, j) > 0 ==> !is_white_space(s[end_before_white_space(s, j) - 1]),
    decreases j,
{
    if j > 0 && is_white_space(s[j - 1]) {
        lemma_end_before_white_space(s, j - 1);
    }
}

/// Trimming keeps a piece of the text from its middle: everything before the
/// piece and everything after it is white space, and the piece neither starts
/// nor ends with white space.
pub proof fn lemma_trimmed_shape(s: Seq<char>)
    ensures
        exists|a: int|
            #![trigger s.subrange(a, a + trimmed(s).len())]
            {
                &&& 0 <= a
                &&& a + trimmed(s).len() <= s.len()
                &&& s.subrange(a, a + trimmed(s).len()) == trimmed(s)
                &&& forall|k: int| 0 <= k < a ==> is_white_space(#[trigger] s[k])
                &&& forall|k: int|
                    a + trimmed(s).len() <= k < s.len() ==> is_white_space(#[trigger] s[k])
            },
        trimmed(s).len() > 0 ==> !is_white_space(trimmed(s)[0]) && !is_white_space(
            trimmed(s).last(),
        ),
{
    let a = skip_white_space(s, 0);
    lemma_skip_white_space(s, 0);
    let t = s.skip(a);
    lemma_end_before_white_space(t, t.len() as int);
    let b = end_before_white_space(t, t.len() as int);
    let r = trimmed(s);
    assert(r == t.take(b));
    assert(s.subrange(a, a + r.len()) =~= r);
    assert forall|k: int| a + r.len() <= k < s.len() implies is_white_space(#[trigger] s[k]) by {
        assert(s[k] == t[k - a]);
    }
    if r.len() > 0 {
        assert(r[0] == t[0]);
        assert(b > 0);
        assert(r.last() == t[b - 1]);
    }
}

/// Whether `c` is one of the ASCII digits.
pub open spec fn is_digit(c: char) -> bool {
    '0' <= c <= '9'
}

/// The number that a string of decimal digits spells.
pub open spec fn digits_value(s: Seq<char>) -> int
    decreases s.len(),
{
    if s.len() == 0 {
        0
    } else {
        digits_value(s.drop_last()) * 10 + (s.last() as int - '0' as int)
    }
}

/// The digits of a number written with an optional leading `+`.
pub open spec fn unsigned_digits(s: Seq<char>) -> Seq<char> {
    if s.len() > 0 && s[0] == '+' {
        s.drop_first()
    } else {
        s
    }
}

/// What `u32::from_str` makes of `s`: an optional `+`, then one or more
/// decimal digits whose value fits in a `u32`; anything else is an error.
pub open spec fn parsed_u32(s: Seq<char>) -> Option<u32> {
    let digits = unsigned_digits(s);
    if digits.len() > 0 && (forall|i: int| 0 <= i < digits.len() ==> is_digit(#[trigger] digits[i]))
        && digits_value(digits) <= u32::MAX {
        Some(digits_value(digits) as u32)
    } else {
        None
    }
}

/// What a line typed by the player means for the game with secret `secret`.
#[derive(Debug, Clone, Copy, PartialEq, Eq, Structural)]
pub enum GuessOutcome {
    /// The line is not a number: it is ignored.
    Invalid,
    /// The guess is below the secret.
    TooSmall(u32),
    /// The guess is above the secret.
    TooBig(u32),
    /// The guess is the secret: the game is won.
    Win(u32),
}

/// The outcome of a guess that the player typed as `line`.
pub open spec fn outcome(line: Seq<char>, secret: u32) -> GuessOutcome {
    match parsed_u32(trimmed(line)) {
        None => GuessOutcome::Invalid,
        Some(g) => if g < secret {
            GuessOutcome::TooSmall(g)
        } else if g > secret {
            GuessOutcome::TooBig(g)
        } else {
            GuessOutcome::Win(g)
        },
    }
}

/// A line that is not a number is ignored; a number `g` is too small exactly
/// when it is below the secret, too big exactly when it is above, and wins
/// exactly when it is the secret.
pub proof fn lemma_outcome_compares(line: Seq<char>, secret: u32)
    ensures
        parsed_u32(trimmed(line)) is None ==> outcome(line, secret) == GuessOutcome::Invalid,
        parsed_u32(trimmed(line)) matches Some(g) ==> {
            &&& (outcome(line, secret) == GuessOutcome::TooSmall(g) <==> g < secret)
            &&& (outcome(line, secret) == GuessOutcome::TooBig(g) <==> g > secret)
            &&& (outcome(line, secret) == GuessOutcome::Win(g) <==> g == secret)
        },
{
}

/// Whether `c` is white space.
fn white_space(c: char) -> (b: bool)
    ensures
        b == is_white_space(c),
{
    ('\u{9}' <= c && c <= '\u{d}') || c == ' ' || c == '\u{85}' || c == '\u{a0}' || c
        == '\u{1680}' || ('\u{2000}' <= c && c <= '\u{200a}') || c == '\u{2028}' || c
        == '\u{2029}' || c == '\u{202f}' || c == '\u{205f}' || c == '\u{3000}'
}

/// `s` without its leading and trailing white space.
pub fn trim(s: &str) -> (t: &str)
    ensures
        t@ == trimmed(s@),
{
    let n = s.unicode_len();
    let mut i: usize = 0;
    while i < n && white_space(s.get_char(i))
        invariant
            n == s@.len(),
            i <= n,
            skip_white_space(s@, 0) == skip_white_space(s@, i as int),
        decreases n - i,
    {
        i = i + 1;
    }
    let rest = s.substring_char(i, n);
    let mut j: usize = n - i;
    while j > 0 && white_space(rest.get_char(j - 1))
        invariant
            rest@ == s@.skip(i as int),
            j <= rest@.len(),
            end_before_white_space(rest@, rest@.len() as int) == end_before_white_space(
                rest@,
                j as int,
            ),
        decreases j,
    {
        j = j - 1;
    }
    rest.substring_char(0, j)
}

proof fn lemma_digits_value_push(s: Seq<char>, c: char)
    ensures
        digits_value(s.push(c)) == digits_value(s) * 10 + (c as int - '0' as int),
{
    assert(s.push(c).drop_last() =~= s);
}

/// A longer string of digits spells a number at least as large.
proof fn lemma_digits_value_grows(s: Seq<char>, k: int)
    requires
        0 <= k <= s.len(),
        forall|i: int| 0 <= i < s.len() ==> is_digit(#[trigger] s[i]),
    ensures
        digits_value(s.take(k)) <= digits_value(s),
    decreases s.len() - k,
{
    if k < s.len() {
        lemma_digits_value_grows(s, k + 1);
        assert(s.take(k + 1).drop_last() =~= s.take(k));
        assert(digits_value(s.take(k)) >= 0) by {
            lemma_digits_value_nonneg(s.take(k));
        }
    } else {
        assert(s.take(k) =~= s);
    }
}

proof fn lemma_digits_value_nonneg(s: Seq<char>)
    requires
        forall|i: int| 0 <= i < s.len() ==> is_digit(#[trigger] s[i]),
    ensures
        digits_value(s) >= 0,
    decreases s.len(),
{
    if s.len() > 0 {
        lemma_digits_value_nonneg(s.drop_last());
        assert(is_digit(s[s.len() - 1]));
    }
}

/// Reading decimal numbers: a single digit is its own value, and a digit
/// written after a number `v` (with no sign in front) gives `10 * v` plus that
/// digit, unless that no longer fits in a `u32`.
pub proof fn lemma_parse_digits(s: Seq<char>, c: char)
    requires
        is_digit(c),
    ensures
        parsed_u32(seq![c]) == Some((c as int - '0' as int) as u32),
        s.len() > 0 && s[0] != '+' ==> match parsed_u32(s) {
            Some(v) => parsed_u32(s.push(c)) == if v * 10 + (c as int - '0' as int) <= u32::MAX {
                Some((v * 10 + (c as int - '0' as int)) as u32)
            } else {
                None::<u32>
            },
            None => parsed_u32(s.push(c)) is None,
        },
{
    let one = seq![c];
    assert(one.drop_last() =~= Seq::<char>::empty());
    assert(one[0] == c);
    assert(unsigned_digits(one) == one);
    assert(digits_value(Seq::<char>::empty()) == 0);
    assert(one.last() == c);
    assert(digits_value(one) == digits_value(one.drop_last()) * 10 + (c as int - '0' as int));
    assert(digits_value(one) == c as int - '0' as int);
    assert(forall|i: int| 0 <= i < one.len() ==> is_digit(#[trigger] one[i]));
    if s.len() > 0 && s[0] != '+' {
        let t = s.push(c);
        assert(t[0] == s[0]);
        assert(unsigned_digits(s) == s);
        assert(unsigned_digits(t) == t);
        lemma_digits_value_push(s, c);
        assert(t[s.len() as int] == c);
        if forall|i: int| 0 <= i < s.len() ==> is_digit(#[trigger] s[i]) {
            assert forall|i: int| 0 <= i < t.len() implies is_digit(#[trigger] t[i]) by {
                if i < s.len() {
                    assert(t[i] == s[i]);
                }
            }
            lemma_digits_value_nonneg(s);
        } else {
            let i = choose|i: int| 0 <= i < s.len() && !is_digit(#[trigger] s[i]);
            assert(t[i] == s[i]);
            assert(!is_digit(t[i]));
        }
    }
}

/// A leading `+` is allowed once: `+` before a number without a sign reads as
/// that number, and a character that is not a digit anywhere else makes the
/// text no number.
pub proof fn lemma_parse_sign_and_junk(s: Seq<char>, i: int)
    ensures
        s.len() > 0 && s[0] != '+' ==> parsed_u32(seq!['+'] + s) == parsed_u32(s),
        0 <= i < s.len() && !is_digit(s[i]) && !(i == 0 && s[0] == '+') ==> parsed_u32(s) is None,
        parsed_u32(Seq::<char>::empty()) is None,
        parsed_u32(seq!['+']) is None,
{
    if s.len() > 0 && s[0] != '+' {
        assert((seq!['+'] + s).drop_first() =~= s);
    }
    if 0 <= i < s.len() && !is_digit(s[i]) && !(i == 0 && s[0] == '+') {
        let d = unsigned_digits(s);
        if s.len() > 0 && s[0] == '+' {
            assert(d[i - 1] == s[i]);
        } else {
            assert(d[i] == s[i]);
        }
    }
    assert(seq!['+'].drop_first() =~= Seq::<char>::empty());
}

/// Parses `s` as `u32::from_str` does, or gives `None`.
pub fn parse_u32(s: &str) -> (r: Option<u32>)
    ensures
        r == parsed_u32(s@),
{
    let n = s.unicode_len();
    let start: usize = if n > 0 && s.get_char(0) == '+' {
        1
    } else {
        0
    };
    let ghost digits = unsigned_digits(s@);
    assert(digits =~= s@.skip(start as int));
    if start >= n {
        return None;
    }
    let mut value: u64 = 0;
    let mut i: usize = start;
    while i < n
        invariant
            n == s@.len(),
            start <= i <= n,
            digits == s@.skip(start as int),
            digits == unsigned_digits(s@),
            digits.len() > 0,
            forall|m: int| 0 <= m < i - start ==> is_digit(#[trigger] digits[m]),
            value == digits_value(digits.take(i - start)),
            value <= u32::MAX,
        decreases n - i,
    {
        let c = s.get_char(i);
        if !('0' <= c && c <= '9') {
            assert(digits[i - start] == c);
            assert(!is_digit(digits[i - start]));
            assert(!(forall|m: int| 0 <= m < digits.len() ==> is_digit(#[trigger] digits[m])));
            assert(parsed_u32(s@) is None);
            return None;
        }
        let d = (c as u32 - '0' as u32) as u64;
        proof {
            assert(digits.take(i - start + 1) =~= digits.take(i - start).push(c));
            lemma_digits_value_push(digits.take(i - start), c);
        }
        let next = value * 10 + d;
        if next > u32::MAX as u64 {
            proof {
                if forall|m: int| 0 <= m < digits.len() ==> is_digit(#[trigger] digits[m]) {
                    lemma_digits_value_grows(digits, i - start + 1);
                    assert(digits_value(digits) > u32::MAX);
                }
                assert(parsed_u32(s@) is None);
            }
            return None;
        }
        value = next;
        i = i + 1;
    }
    assert(digits.take(n - start) =~= digits);
    Some(value as u32)
}

/// The secret number: `rand::thread_rng().gen_range(1..101)`, uniform over
/// 1 to 100; nothing more than the range is stated.
#[verifier::external_body]
fn draw_secret() -> (n: u32)
    ensures
        1 <= n <= 100,
{
    rand::thread_rng().gen_range(1..101)
}

/// What the player's `line` means in a game whose secret is `secret`: the
/// line, trimmed, must be a `u32` (otherwise it is ignored), which is then
/// compared with the secret.
pub fn judge_guess(line: &str, secret: u32) -> (r: GuessOutcome)
    ensures
        r == outcome(line@, secret),
        parsed_u32(trimmed(line@)) is None ==> r == GuessOutcome::Invalid,
        parsed_u32(trimmed(line@)) matches Some(g) ==> {
            &&& (r == GuessOutcome::TooSmall(g) <==> g < secret)
            &&& (r == GuessOutcome::TooBig(g) <==> g > secret)
            &&& (r == GuessOutcome::Win(g) <==> g == secret)
        },
{
    match parse_u32(trim(line)) {
        None => GuessOutcome::Invalid,
        Some(g) => if g < secret {
            GuessOutcome::TooSmall(g)
        } else if g > secret {
            GuessOutcome::TooBig(g)
        } else {
            GuessOutcome::Win(g)
        },
    }
}

/// A game of guessing a secret number between 1 and 100.
pub struct GuessingGame {
    secret: u32,
}

impl GuessingGame {
    /// The secret that the player has to guess.
    pub closed spec fn secret(&self) -> u32 {
        self.secret
    }

    /// A game with a secret drawn at random between 1 and 100.
    pub fn new() -> (g: GuessingGame)
        ensures
            1 <= g.secret() <= 100,
    {
        GuessingGame { secret: draw_secret() }
    }

    /// What the player's `line` means in this game.
    pub fn guess(&self, line: &str) -> (r: GuessOutcome)
        ensures
            r == outcome(line@, self.secret()),
    {
        judge_guess(line, self.secret)
    }
}

} // verus!
