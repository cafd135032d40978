//! Reading a pair of numbers, such as a board size or a move, from a line
//! of text: two words separated by whitespace, each a decimal `usize`.
use vstd::prelude::*;

verus! {

/// The characters that Unicode counts as white space.
pub open spec fn is_space(c: char) -> bool {
    let u = c as u32;
    ||| 0x09 <= u <= 0x0D
    ||| u == 0x20
    ||| u == 0x85
    ||| u == 0xA0
    ||| u == 0x1680
    ||| 0x2000 <= u <= 0x200A
    ||| u == 0x2028
    ||| u == 0x2029
    ||| u == 0x202F
    ||| u == 0x205F
    ||| u == 0x3000
}

/// The maximal runs of characters other than white space, in order.
pub open spec fn words(s: Seq<char>) -> Seq<Seq<char>>
    decreases s.len(),
{
    if s.len() == 0 {
        seq![]
    } else if is_space(s.last()) {
        words(s.drop_last())
    } else if s.len() >= 2 && !is_space(s[s.len() - 2]) {
        let w = words(s.drop_last());
        w.update(w.len() - 1, w.last().push(s.last()))
    } else {
        words(s.drop_last()).push(seq![s.last()])
    }
}

/// The value of a run of decimal digits.
pub open spec fn digits_value(w: Seq<char>) -> nat
    decreases w.len(),
{
    if w.len() == 0 {
        0
    } else {
        digits_value(w.drop_last()) * 10 + ((w.last() as u32) - ('0' as u32)) as nat
    }
}

/// Every character of `w` is an ASCII digit.
pub open spec fn all_digits(w: Seq<char>) -> bool {
    forall|i: int| 0 <= i < w.len() ==> '0' <= #[trigger] w[i] <= '9'
}

/// `w` without the one `+` that may lead it.
pub open spec fn unsigned_part(w: Seq<char>) -> Seq<char> {
    if w.len() > 0 && w[0] == '+' {
        w.skip(1)
    } else {
        w
    }
}

/// The number that `w` writes: an optional `+` and then one or more decimal
/// digits whose value fits in a `usize`.
pub open spec fn number_of(w: Seq<char>) -> Option<usize> {
    let digits = unsigned_part(w);
    if digits.len() > 0 && all_digits(digits) && digits_value(digits) <= usize::MAX {
        Some(digits_value(digits) as usize)
    } else {
        None
    }
}

/// Why a line did not give a pair of numbers.
#[derive(Debug, PartialEq, Eq, Structural)]
pub enum InputError {
    /// The line does not hold exactly two words.
    WrongCount,
    /// The first word is not a number.
    BadFirst,
    /// The second word is not a number.
    BadSecond,
}

/// The pair of numbers that the line `s` writes, or why it writes none.
pub open spec fn pair_of(s: Seq<char>) -> Result<(usize, usize), InputError> {
    let w = words(s);
    if w.len() != 2 {
        Err(InputError::WrongCount)
    } else {
        match (number_of(w[0]), number_of(w[1])) {
            (None, _) => Err(InputError::BadFirst),
            (Some(_), None) => Err(InputError::BadSecond),
            (Some(a), Some(b)) => Ok((a, b)),
        }
    }
}

/// A prefix of a run of digits is worth no more than the whole run.
pub proof fn lemma_digits_value_prefix(w: Seq<char>, j: int)
    requires
        0 <= j <= w.len(),
        all_digits(w),
    ensures
        digits_value(w.take(j)) <= digits_value(w),
    decreases w.len(),
{
    if j < w.len() {
        let v = w.drop_last();
        assert(all_digits(v)) by {
            assert forall|i: int| 0 <= i < v.len() implies '0' <= #[trigger] v[i] <= '9' by {
                assert(w[i] == v[i]);
            }
        }
        lemma_digits_value_prefix(v, j);
        assert(v.take(j) =~= w.take(j));
    } else {
        assert(w.take(j) =~= w);
    }
}

/// Whether `c` is white space.
pub fn is_space_char(c: char) -> (b: bool)
    ensures
        b == is_space(c),
{
    let u = c as u32;
    (0x09 <= u && u <= 0x0D) || u == 0x20 || u == 0x85 || u == 0xA0 || u == 0x1680 || (0x2000
        <= u && u <= 0x200A) || u == 0x2028 || u == 0x2029 || u == 0x202F || u == 0x205F || u
        == 0x3000
}

/// Reads a word as a number: an optional `+`, then decimal digits whose
/// value fits in a `usize`.
pub fn parse_number(w: &Vec<char>) -> (r: Option<usize>)
    ensures
        r == number_of(w@),
{
    let start: usize = if w.len() > 0 && w[0] == '+' { 1 } else { 0 };
    let ghost digits = w@.skip(start as int);
    assert(digits =~= unsigned_part(w@));
    if start == w.len() {
        return None;
    }
    let mut value: usize = 0;
    let mut i: usize = start;
    while i < w.len()
        invariant
            start <= i <= w.len(),
            start < w.len(),
            digits == w@.skip(start as int),
            digits == unsigned_part(w@),
            digits.take(i - start) == w@.subrange(start as int, i as int),
            all_digits(w@.subrange(start as int, i as int)),
            value == digits_value(w@.subrange(start as int, i as int)),
        decreases w.len() - i,
    {
        let c = w[i];
        if !('0' <= c && c <= '9') {
            assert(digits[i - start] == c);
            return None;
        }
        let d = (c as u32 - '0' as u32) as usize;
        let ghost next = w@.subrange(start as int, i + 1);
        assert(next.drop_last() =~= w@.subrange(start as int, i as int));
        assert(all_digits(next));
        assert(digits.take(i + 1 - start) =~= next);
        match value.checked_mul(10) {
            None => {
                proof {
                    if all_digits(digits) {
                        lemma_digits_value_prefix(digits, i + 1 - start);
                    }
                }
                return None;
            },
            Some(tens) => match tens.checked_add(d) {
                None => {
                    proof {
                        if all_digits(digits) {
                            lemma_digits_value_prefix(digits, i + 1 - start);
                        }
                    }
                    return None;
                },
                Some(v) => {
                    value = v;
                },
            },
        }
        i = i + 1;
    }
    assert(w@.subrange(start as int, i as int) =~= digits);
    Some(value)
}

/// The views of a sequence of character vectors.
pub open spec fn views(v: Seq<Vec<char>>) -> Seq<Seq<char>> {
    Seq::new(v.len(), |k: int| v[k]@)
}

/// Splits `s` into its words: the maximal runs of characters other than
/// white space, in order.
pub fn split_words(s: &Vec<char>) -> (r: Vec<Vec<char>>)
    ensures
        views(r@) == words(s@),
{
    let mut done: Vec<Vec<char>> = Vec::new();
    let mut cur: Vec<char> = Vec::new();
    let mut i: usize = 0;
    while i < s.len()
        invariant
            i <= s.len(),
            words(s@.take(i as int)) == if cur@.len() > 0 {
                views(done@).push(cur@)
            } else {
                views(done@)
            },
            cur@.len() > 0 <==> (i > 0 && !is_space(s@[i - 1])),
        decreases s.len() - i,
    {
        let c = s[i];
        let ghost t = s@.take(i + 1);
        assert(t.drop_last() =~= s@.take(i as int));
        if is_space_char(c) {
            if cur.len() > 0 {
                let ghost before = views(done@);
                done.push(cur);
                assert(views(done@) =~= before.push(cur@));
                cur = Vec::new();
            }
        } else {
            let ghost before = cur@;
            cur.push(c);
            proof {
                assert(cur@ =~= before.push(c));
                if before.len() > 0 {
                    let w = views(done@).push(before);
                    assert(w.update(w.len() - 1, w.last().push(c)) =~= views(done@).push(cur@));
                } else {
                    assert(cur@ =~= seq![c]);
                }
            }
        }
        i = i + 1;
    }
    assert(s@.take(i as int) =~= s@);
    if cur.len() > 0 {
        let ghost before = views(done@);
        done.push(cur);
        assert(views(done@) =~= before.push(cur@));
    }
    done
}

/// Reads two whitespace-separated numbers from a line: exactly two words,
/// each an optional `+` and decimal digits whose value fits in a `usize`.
pub fn parse_pair(line: &Vec<char>) -> (r: Result<(usize, usize), InputError>)
    ensures
        r == pair_of(line@),
{
    let w = split_words(line);
    if w.len() != 2 {
        return Err(InputError::WrongCount);
    }
    assert(w@[0]@ == words(line@)[0] && w@[1]@ == words(line@)[1]);
    match parse_number(&w[0]) {
        None => Err(InputError::BadFirst),
        Some(a) => match parse_number(&w[1]) {
            None => Err(InputError::BadSecond),
            Some(b) => Ok((a, b)),
        },
    }
}

} // verus!
