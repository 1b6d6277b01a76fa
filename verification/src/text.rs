//! Texts: numbers in decimal, the search for a text in another, words split
//! at white space, and the lower case of a text.
use vstd::prelude::*;
use vstd::string::StringExecFns;

verus! {

/// The character of a decimal digit.
pub open spec fn digit(d: nat) -> char {
    if d == 0 {
        '0'
    } else if d == 1 {
        '1'
    } else if d == 2 {
        '2'
    } else if d == 3 {
        '3'
    } else if d == 4 {
        '4'
    } else if d == 5 {
        '5'
    } else if d == 6 {
        '6'
    } else if d == 7 {
        '7'
    } else if d == 8 {
        '8'
    } else {
        '9'
    }
}

/// The decimal digits of a natural number, without leading zeros.
pub open spec fn digits(n: nat) -> Seq<char>
    decreases n,
{
    if n < 10 {
        seq![digit(n)]
    } else {
        digits(n / 10).push(digit(n % 10))
    }
}

/// A whole number in decimal, with a minus sign where it is negative.
pub open spec fn decimal(n: int) -> Seq<char> {
    if n < 0 {
        seq!['-'] + digits((-n) as nat)
    } else {
        digits(n as nat)
    }
}

fn digit_text(d: u64) -> (r: &'static str)
    requires
        d < 10,
    ensures
        r@ == seq![digit(d as nat)],
{
    proof {
        reveal_strlit("0");
        reveal_strlit("1");
        reveal_strlit("2");
        reveal_strlit("3");
        reveal_strlit("4");
        reveal_strlit("5");
        reveal_strlit("6");
        reveal_strlit("7");
        reveal_strlit("8");
        reveal_strlit("9");
    }
    let r = if d == 0 {
        "0"
    } else if d == 1 {
        "1"
    } else if d == 2 {
        "2"
    } else if d == 3 {
        "3"
    } else if d == 4 {
        "4"
    } else if d == 5 {
        "5"
    } else if d == 6 {
        "6"
    } else if d == 7 {
        "7"
    } else if d == 8 {
        "8"
    } else {
        "9"
    };
    assert(r@ =~= seq![digit(d as nat)]);
    r
}

/// Appends the decimal digits of `n` to `out`.
fn push_digits(out: &mut String, n: u64)
    ensures
        final(out)@ == old(out)@ + digits(n as nat),
    decreases n,
{
    if n >= 10 {
        push_digits(out, n / 10);
    }
    out.append(digit_text(n % 10));
    proof {
        if n >= 10 {
            assert(old(out)@ + digits(n as nat / 10) + seq![digit(n as nat % 10)] =~= old(out)@ + digits(
                n as nat,
            ));
        } else {
            assert(old(out)@ + seq![digit(n as nat % 10)] =~= old(out)@ + digits(n as nat));
        }
    }
}

/// Appends a whole number in decimal to `out`.
pub fn push_decimal(out: &mut String, n: i64)
    ensures
        final(out)@ == old(out)@ + decimal(n as int),
{
    if n < 0 {
        proof {
            reveal_strlit("-");
            assert("-"@ =~= seq!['-']);
        }
        out.append("-");
        let m: u64 = if n == i64::MIN {
            9223372036854775808u64
        } else {
            (-n) as u64
        };
        push_digits(out, m);
        assert(old(out)@ + seq!['-'] + digits((-n) as nat) =~= old(out)@ + decimal(n as int));
    } else {
        push_digits(out, n as u64);
    }
}

/// A whole number in decimal.
pub fn to_decimal(n: i64) -> (r: String)
    ensures
        r@ == decimal(n as int),
{
    let mut out = String::new();
    push_decimal(&mut out, n);
    assert(Seq::<char>::empty() + decimal(n as int) =~= decimal(n as int));
    out
}

/// The character of a hexadecimal digit, in lower case.
pub open spec fn hex_digit(d: nat) -> char {
    if d < 10 {
        digit(d)
    } else if d == 10 {
        'a'
    } else if d == 11 {
        'b'
    } else if d == 12 {
        'c'
    } else if d == 13 {
        'd'
    } else if d == 14 {
        'e'
    } else {
        'f'
    }
}

/// The hexadecimal digits of a natural number, without leading zeros.
pub open spec fn hex_digits(n: nat) -> Seq<char>
    decreases n,
{
    if n < 16 {
        seq![hex_digit(n)]
    } else {
        hex_digits(n / 16).push(hex_digit(n % 16))
    }
}

fn hex_digit_text(d: u64) -> (r: &'static str)
    requires
        d < 16,
    ensures
        r@ == seq![hex_digit(d as nat)],
{
    if d < 10 {
        digit_text(d)
    } else {
        proof {
            reveal_strlit("a");
            reveal_strlit("b");
            reveal_strlit("c");
            reveal_strlit("d");
            reveal_strlit("e");
            reveal_strlit("f");
        }
        let r = if d == 10 {
            "a"
        } else if d == 11 {
            "b"
        } else if d == 12 {
            "c"
        } else if d == 13 {
            "d"
        } else if d == 14 {
            "e"
        } else {
            "f"
        };
        assert(r@ =~= seq![hex_digit(d as nat)]);
        r
    }
}

/// Appends the hexadecimal digits of `n` to `out`.
pub fn push_hex(out: &mut String, n: u64)
    ensures
        final(out)@ == old(out)@ + hex_digits(n as nat),
    decreases n,
{
    if n >= 16 {
        push_hex(out, n / 16);
    }
    out.append(hex_digit_text(n % 16));
    proof {
        if n >= 16 {
            assert(old(out)@ + hex_digits(n as nat / 16) + seq![hex_digit(n as nat % 16)] =~= old(
                out,
            )@ + hex_digits(n as nat));
        } else {
            assert(old(out)@ + seq![hex_digit(n as nat % 16)] =~= old(out)@ + hex_digits(n as nat));
        }
    }
}

/// The characters of a text.
pub fn chars_of(text: &str) -> (r: Vec<char>)
    ensures
        r@ == text@,
{
    let mut out: Vec<char> = Vec::new();
    for c in it: text.chars()
        invariant
            it.seq() == text@,
            out@ == text@.take(it.index() as int),
    {
        out.push(c);
        assert(text@.take(it.index() + 1) =~= text@.take(it.index() as int).push(c));
    }
    assert(text@.take(text@.len() as int) =~= text@);
    out
}

/// `part` stands in `whole` at the position `at`.
pub open spec fn occurs_at(whole: Seq<char>, part: Seq<char>, at: int) -> bool {
    0 <= at && at + part.len() <= whole.len() && whole.subrange(at, at + part.len()) == part
}

/// `part` stands somewhere in `whole`. The empty text stands in every text.
pub open spec fn occurs_in(whole: Seq<char>, part: Seq<char>) -> bool {
    exists|at: int| occurs_at(whole, part, at)
}

/// Whether `part` stands in `whole` at `at`.
fn stands_at(whole: &Vec<char>, part: &Vec<char>, at: usize) -> (r: bool)
    requires
        at + part.len() <= whole.len(),
    ensures
        r == occurs_at(whole@, part@, at as int),
{
    let mut i: usize = 0;
    while i < part.len()
        invariant
            i <= part.len(),
            at + part.len() <= whole.len(),
            forall|j: int| 0 <= j < i ==> whole@[at + j] == part@[j],
        decreases part.len() - i,
    {
        if whole[at + i] != part[i] {
            assert(whole@.subrange(at as int, at + part.len())[i as int] != part@[i as int]);
            return false;
        }
        i += 1;
    }
    assert(whole@.subrange(at as int, at + part.len()) =~= part@);
    true
}

/// Whether `part` stands somewhere in `whole`.
pub fn contains_chars(whole: &Vec<char>, part: &Vec<char>) -> (r: bool)
    ensures
        r == occurs_in(whole@, part@),
{
    if part.len() > whole.len() {
        return false;
    }
    let last = whole.len() - part.len();
    let mut at: usize = 0;
    while at < last
        invariant
            at <= last,
            last == whole.len() - part.len(),
            forall|j: int| 0 <= j < at ==> !occurs_at(whole@, part@, j),
        decreases last - at,
    {
        if stands_at(whole, part, at) {
            return true;
        }
        at += 1;
    }
    stands_at(whole, part, last)
}

/// Whether `part` stands somewhere in `whole`.
pub fn contains_text(whole: &str, part: &str) -> (r: bool)
    ensures
        r == occurs_in(whole@, part@),
{
    let w = chars_of(whole);
    let p = chars_of(part);
    contains_chars(&w, &p)
}

/// White space: the characters that Unicode gives the property White_Space.
pub open spec fn is_space(c: char) -> bool {
    let n = c as u32;
    ||| 0x09 <= n <= 0x0d
    ||| n == 0x20
    ||| n == 0x85
    ||| n == 0xa0
    ||| n == 0x1680
    ||| 0x2000 <= n <= 0x200a
    ||| n == 0x2028
    ||| n == 0x2029
    ||| n == 0x202f
    ||| n == 0x205f
    ||| n == 0x3000
}

/// Whether the character is white space.
pub fn is_white_space(c: char) -> (r: bool)
    ensures
        r == is_space(c),
{
    let n = c as u32;
    (0x09 <= n && n <= 0x0d) || n == 0x20 || n == 0x85 || n == 0xa0 || n == 0x1680 || (0x2000 <= n
        && n <= 0x200a) || n == 0x2028 || n == 0x2029 || n == 0x202f || n == 0x205f || n == 0x3000
}

/// The stretch from `from` up to `to` is a word of the text: it holds no
/// white space, and white space or an end of the text stands on either side.
pub open spec fn is_word(text: Seq<char>, from: int, to: int) -> bool {
    &&& 0 <= from < to <= text.len()
    &&& forall|i: int| from <= i < to ==> !is_space(#[trigger] text[i])
    &&& from == 0 || is_space(text[from - 1])
    &&& to == text.len() || is_space(text[to])
}

/// The words are those of the text, in their order: each is a longest
/// stretch without white space, they follow each other, and no such stretch
/// is left out.
pub open spec fn are_words(text: Seq<char>, words: Seq<Seq<char>>, bounds: Seq<(int, int)>) -> bool {
    &&& bounds.len() == words.len()
    &&& forall|k: int|
        0 <= k < words.len() ==> is_word(text, (#[trigger] bounds[k]).0, bounds[k].1) && words[k]
            == text.subrange(bounds[k].0, bounds[k].1)
    &&& forall|k: int| 0 <= k < words.len() - 1 ==> (#[trigger] bounds[k]).1 < bounds[k + 1].0
    &&& forall|i: int|
        0 <= i < text.len() && !is_space(#[trigger] text[i]) ==> exists|k: int|
            0 <= k < bounds.len() && (#[trigger] bounds[k]).0 <= i < bounds[k].1
}

/// The text splits into the words.
pub open spec fn splits_into(text: Seq<char>, words: Seq<Seq<char>>) -> bool {
    exists|bounds: Seq<(int, int)>| are_words(text, words, bounds)
}

/// The words of a text: its longest stretches without white space.
pub fn split_words(text: &str) -> (r: Vec<Vec<char>>)
    ensures
        splits_into(text@, Seq::new(r@.len(), |k: int| r@[k]@)),
{
    let chars = chars_of(text);
    let mut out: Vec<Vec<char>> = Vec::new();
    let ghost mut bounds: Seq<(int, int)> = Seq::empty();
    let mut word: Vec<char> = Vec::new();
    let mut i: usize = 0;
    while i < chars.len()
        invariant
            i <= chars.len(),
            chars@ == text@,
            word@.len() <= i,
            word@ == chars@.subrange(i - word@.len(), i as int),
            forall|j: int| i - word@.len() <= j < i ==> !is_space(#[trigger] chars@[j]),
            word@.len() < i ==> is_space(chars@[i - word@.len() - 1]),
            bounds.len() == out@.len(),
            forall|k: int|
                0 <= k < out@.len() ==> is_word(chars@, (#[trigger] bounds[k]).0, bounds[k].1)
                    && out@[k]@ == chars@.subrange(bounds[k].0, bounds[k].1) && bounds[k].1 < i
                    - word@.len(),
            forall|k: int| 0 <= k < out@.len() - 1 ==> (#[trigger] bounds[k]).1 < bounds[k + 1].0,
            forall|j: int|
                0 <= j < i - word@.len() && !is_space(#[trigger] chars@[j]) ==> exists|k: int|
                    0 <= k < bounds.len() && (#[trigger] bounds[k]).0 <= j < bounds[k].1,
        decreases chars.len() - i,
    {
        let c = chars[i];
        if is_white_space(c) {
            if word.len() > 0 {
                let ghost from = i - word@.len();
                let ghost old_bounds = bounds;
                let mut done: Vec<char> = Vec::new();
                core::mem::swap(&mut word, &mut done);
                out.push(done);
                proof {
                    bounds = bounds.push((from, i as int));
                    assert forall|j: int|
                        0 <= j < i + 1 && !is_space(#[trigger] chars@[j]) implies exists|k: int|
                        0 <= k < bounds.len() && (#[trigger] bounds[k]).0 <= j < bounds[k].1 by {
                        if j < from {
                            let k = choose|k: int|
                                0 <= k < old_bounds.len() && (#[trigger] old_bounds[k]).0 <= j
                                    < old_bounds[k].1;
                            assert(bounds[k] == old_bounds[k]);
                        } else {
                            assert(bounds[old_bounds.len() as int] == (from, i as int));
                        }
                    }
                    assert(word@ =~= chars@.subrange(i + 1, i + 1));
                }
            } else {
                proof {
                    assert(word@ =~= chars@.subrange(i + 1, i + 1));
                }
            }
        } else {
            word.push(c);
            assert(word@ =~= chars@.subrange(i + 1 - word@.len(), i + 1));
        }
        i += 1;
    }
    if word.len() > 0 {
        let ghost from = chars@.len() - word@.len();
        let ghost old_bounds = bounds;
        out.push(word);
        proof {
            bounds = bounds.push((from, chars@.len() as int));
            assert forall|j: int|
                0 <= j < chars@.len() && !is_space(#[trigger] chars@[j]) implies exists|k: int|
                0 <= k < bounds.len() && (#[trigger] bounds[k]).0 <= j < bounds[k].1 by {
                if j < from {
                    let k = choose|k: int|
                        0 <= k < old_bounds.len() && (#[trigger] old_bounds[k]).0 <= j < old_bounds[k].1;
                    assert(bounds[k] == old_bounds[k]);
                } else {
                    assert(bounds[old_bounds.len() as int] == (from, chars@.len() as int));
                }
            }
        }
    }
    proof {
        let words = Seq::new(out@.len(), |k: int| out@[k]@);
        assert(are_words(text@, words, bounds));
    }
    out
}

/// Two words that share a position are one word.
pub proof fn lemma_one_word(text: Seq<char>, a: (int, int), b: (int, int), i: int)
    requires
        is_word(text, a.0, a.1),
        is_word(text, b.0, b.1),
        a.0 <= i < a.1,
        b.0 <= i < b.1,
    ensures
        a == b,
{
    if a.0 < b.0 {
        assert(!is_space(text[b.0 - 1]));
    }
    if b.0 < a.0 {
        assert(!is_space(text[a.0 - 1]));
    }
    if a.1 < b.1 {
        assert(!is_space(text[a.1]));
    }
    if b.1 < a.1 {
        assert(!is_space(text[b.1]));
    }
}

/// Every word of the text stands in `whole`.
pub open spec fn holds_every_word(whole: Seq<char>, text: Seq<char>) -> bool {
    forall|from: int, to: int| #[trigger]
        is_word(text, from, to) ==> occurs_in(whole, text.subrange(from, to))
}

/// Where a text splits into words, all of them stand in `whole` exactly if
/// every word of the text does.
pub proof fn lemma_words_cover(whole: Seq<char>, text: Seq<char>, words: Seq<Seq<char>>)
    requires
        splits_into(text, words),
    ensures
        (forall|k: int| 0 <= k < words.len() ==> occurs_in(whole, #[trigger] words[k]))
            <==> holds_every_word(whole, text),
{
    let bounds = choose|bounds: Seq<(int, int)>| are_words(text, words, bounds);
    if forall|k: int| 0 <= k < words.len() ==> occurs_in(whole, #[trigger] words[k]) {
        assert forall|from: int, to: int| #[trigger] is_word(text, from, to) implies occurs_in(
            whole,
            text.subrange(from, to),
        ) by {
            assert(!is_space(text[from]));
            let k = choose|k: int| 0 <= k < bounds.len() && (#[trigger] bounds[k]).0 <= from < bounds[k].1;
            lemma_one_word(text, (from, to), bounds[k], from);
            assert(occurs_in(whole, words[k]));
        }
    }
    if holds_every_word(whole, text) {
        assert forall|k: int| 0 <= k < words.len() implies occurs_in(whole, #[trigger] words[k]) by {
            assert(is_word(text, bounds[k].0, bounds[k].1));
        }
    }
}

/// The lower case of a text, as `str::to_lowercase` gives it.
pub uninterp spec fn lowercase_of(text: Seq<char>) -> Seq<char>;

/// `str::to_lowercase`: the text with each character in lower case, by the
/// rules of Unicode, which do not depend on a locale.
#[verifier::external_body]
pub(crate) fn lowercase(text: &str) -> (r: String)
    ensures
        r@ == lowercase_of(text@),
{
    text.to_lowercase()
}

} // verus!
