//! Literal values: numbers, strings, `nil` and the two booleans.
//!
//! A number keeps its exact decimal value as canonical text: no leading zeros
//! in the whole part (a lone `0` when it is zero), no trailing zeros in the
//! fraction, and no `.` when the fraction is zero. That text is also its
//! display form, so `1.50` and `01.5` are the same value and print as `1.5`.
use vstd::prelude::*;
use crate::text::{is_digit, push_char, push_range, push_str, chars_of};

verus! {

/// End of the run of digits that starts at `i`.
pub open spec fn digit_end(s: Seq<char>, i: int) -> int
    decreases s.len() - i,
{
    if 0 <= i < s.len() && is_digit(s[i]) {
        digit_end(s, i + 1)
    } else {
        i
    }
}

/// End of the number literal that starts at `i`: digits, then optionally a
/// `.` followed by at least one digit.
pub open spec fn number_end(s: Seq<char>, i: int) -> int {
    let k = digit_end(s, i);
    if k + 1 < s.len() && s[k] == '.' && is_digit(s[k + 1]) {
        digit_end(s, k + 1)
    } else {
        k
    }
}

pub open spec fn strip_leading_zeros(s: Seq<char>) -> Seq<char>
    decreases s.len(),
{
    if s.len() > 0 && s[0] == '0' {
        strip_leading_zeros(s.drop_first())
    } else {
        s
    }
}

pub open spec fn strip_trailing_zeros(s: Seq<char>) -> Seq<char>
    decreases s.len(),
{
    if s.len() > 0 && s.last() == '0' {
        strip_trailing_zeros(s.drop_last())
    } else {
        s
    }
}

/// Canonical text of the decimal number with digits `whole` before the point
/// and `fraction` after it.
pub open spec fn canonical_decimal(whole: Seq<char>, fraction: Seq<char>) -> Seq<char> {
    let w = strip_leading_zeros(whole);
    let f = strip_trailing_zeros(fraction);
    (if w.len() == 0 { seq!['0'] } else { w }) + (if f.len() == 0 {
        Seq::<char>::empty()
    } else {
        seq!['.'] + f
    })
}

/// Value of the number literal `s[i..end]`.
pub open spec fn number_value(s: Seq<char>, i: int, end: int) -> Seq<char> {
    let k = digit_end(s, i);
    canonical_decimal(
        s.subrange(i, k),
        if k < end { s.subrange(k + 1, end) } else { Seq::<char>::empty() },
    )
}

/// `t` is, as a whole, one number literal.
pub open spec fn is_number_text(t: Seq<char>) -> bool {
    t.len() > 0 && is_digit(t[0]) && number_end(t, 0) == t.len()
}

/// `t` is a number literal that is its own canonical text.
pub open spec fn is_canonical_number(t: Seq<char>) -> bool {
    is_number_text(t) && number_value(t, 0, t.len() as int) == t
}

pub open spec fn all_digits(s: Seq<char>) -> bool {
    forall|i: int| 0 <= i < s.len() ==> is_digit(#[trigger] s[i])
}

/// A digit run ends where the digits stop.
pub proof fn lemma_digit_end(s: Seq<char>, i: int, j: int)
    requires
        0 <= i <= j <= s.len(),
        forall|m: int| i <= m < j ==> is_digit(#[trigger] s[m]),
        j == s.len() || !is_digit(s[j]),
    ensures
        digit_end(s, i) == j,
    decreases j - i,
{
    if i < j {
        lemma_digit_end(s, i + 1, j);
    }
}

/// A digit run stays within the sequence and holds digits only.
pub proof fn lemma_digit_end_bounds(s: Seq<char>, i: int)
    requires
        0 <= i <= s.len(),
    ensures
        i <= digit_end(s, i) <= s.len(),
        forall|m: int| i <= m < digit_end(s, i) ==> is_digit(#[trigger] s[m]),
        digit_end(s, i) == s.len() || !is_digit(s[digit_end(s, i)]),
    decreases s.len() - i,
{
    if i < s.len() && is_digit(s[i]) {
        lemma_digit_end_bounds(s, i + 1);
    }
}

proof fn lemma_strip_leading(s: Seq<char>)
    requires
        all_digits(s),
    ensures
        all_digits(strip_leading_zeros(s)),
        strip_leading_zeros(s).len() == 0 || strip_leading_zeros(s)[0] != '0',
    decreases s.len(),
{
    if s.len() > 0 && s[0] == '0' {
        assert(all_digits(s.drop_first())) by {
            assert forall|i: int| 0 <= i < s.drop_first().len() implies is_digit(
                #[trigger] s.drop_first()[i],
            ) by {
                assert(s.drop_first()[i] == s[i + 1]);
            }
        }
        lemma_strip_leading(s.drop_first());
    }
}

proof fn lemma_strip_trailing(s: Seq<char>)
    requires
        all_digits(s),
    ensures
        all_digits(strip_trailing_zeros(s)),
        strip_trailing_zeros(s).len() == 0 || strip_trailing_zeros(s).last() != '0',
    decreases s.len(),
{
    if s.len() > 0 && s.last() == '0' {
        assert(all_digits(s.drop_last())) by {
            assert forall|i: int| 0 <= i < s.drop_last().len() implies is_digit(
                #[trigger] s.drop_last()[i],
            ) by {
                assert(s.drop_last()[i] == s[i]);
            }
        }
        lemma_strip_trailing(s.drop_last());
    }
}

/// The canonical text of any digits is a canonical number.
pub proof fn lemma_canonical_decimal(whole: Seq<char>, fraction: Seq<char>)
    requires
        all_digits(whole),
        all_digits(fraction),
    ensures
        is_canonical_number(canonical_decimal(whole, fraction)),
{
    lemma_strip_leading(whole);
    lemma_strip_trailing(fraction);
    let w0 = strip_leading_zeros(whole);
    let f = strip_trailing_zeros(fraction);
    let w = if w0.len() == 0 { seq!['0'] } else { w0 };
    let tail = if f.len() == 0 { Seq::<char>::empty() } else { seq!['.'] + f };
    let t = w + tail;
    assert(t == canonical_decimal(whole, fraction));
    let k = w.len() as int;
    assert forall|m: int| 0 <= m < k implies is_digit(#[trigger] t[m]) by {
        assert(t[m] == w[m]);
    }
    lemma_digit_end(t, 0, k);
    assert(t.subrange(0, k) =~= w);
    // the whole part is already stripped
    if w0.len() == 0 {
        assert(w.drop_first() =~= Seq::<char>::empty());
        assert(strip_leading_zeros(Seq::<char>::empty()) == Seq::<char>::empty());
        assert(w.len() > 0 && w[0] == '0');
        assert(strip_leading_zeros(w) == strip_leading_zeros(w.drop_first()));
        assert(strip_leading_zeros(w) == Seq::<char>::empty());
    } else {
        assert(strip_leading_zeros(w) == w);
    }
    if f.len() == 0 {
        assert(t =~= w);
        assert(strip_trailing_zeros(Seq::<char>::empty()) == Seq::<char>::empty());
        assert(number_end(t, 0) == t.len());
        assert(canonical_decimal(t.subrange(0, k), Seq::<char>::empty()) =~= t);
    } else {
        assert(t[k] == '.');
        assert(t[k + 1] == f[0]);
        assert forall|m: int| k + 1 <= m < t.len() implies is_digit(#[trigger] t[m]) by {
            assert(t[m] == f[m - k - 1]);
        }
        lemma_digit_end(t, k + 1, t.len() as int);
        assert(number_end(t, 0) == t.len());
        assert(t.subrange(k + 1, t.len() as int) =~= f);
        assert(strip_trailing_zeros(f) == f);
        assert(canonical_decimal(t.subrange(0, k), f) =~= t);
    }
}

/// A number literal's exact decimal value, held as canonical text.
#[derive(Clone, Debug, PartialEq, Eq)]
pub struct Number {
    text: String,
}

impl View for Number {
    type V = Seq<char>;

    closed spec fn view(&self) -> Seq<char> {
        self.text@
    }
}

impl Number {
    /// A number holds canonical text.
    pub open spec fn wf(&self) -> bool {
        is_canonical_number(self@)
    }

    /// The value of the number literal `src[start..end]`, where `end` is
    /// where the literal that starts at `start` ends.
    pub fn from_lexeme(src: &Vec<char>, start: usize, end: usize) -> (r: Number)
        requires
            start < src@.len(),
            is_digit(src@[start as int]),
            end == number_end(src@, start as int),
        ensures
            r@ == number_value(src@, start as int, end as int),
            r.wf(),
    {
        proof {
            lemma_digit_end_bounds(src@, start as int);
        }
        let mut k = start;
        while k < src.len() && is_digit_char(src[k])
            invariant
                start <= k <= src@.len(),
                digit_end(src@, k as int) == digit_end(src@, start as int),
            decreases src@.len() - k,
        {
            k = k + 1;
        }
        let (fs, fe) = if k < end { (k + 1, end) } else { (end, end) };
        proof {
            if k < end {
                lemma_digit_end_bounds(src@, k as int + 1);
            }
        }
        let ghost whole = src@.subrange(start as int, k as int);
        let ghost fraction = src@.subrange(fs as int, fe as int);
        let mut a = start;
        while a < k && src[a] == '0'
            invariant
                start <= a <= k <= src@.len(),
                strip_leading_zeros(whole) == strip_leading_zeros(
                    src@.subrange(a as int, k as int),
                ),
            decreases k - a,
        {
            assert(src@.subrange(a as int, k as int).drop_first() =~= src@.subrange(
                a as int + 1,
                k as int,
            ));
            a = a + 1;
        }
        let mut b = fe;
        while b > fs && src[b - 1] == '0'
            invariant
                fs <= b <= fe <= src@.len(),
                strip_trailing_zeros(fraction) == strip_trailing_zeros(
                    src@.subrange(fs as int, b as int),
                ),
            decreases b - fs,
        {
            assert(src@.subrange(fs as int, b as int).drop_last() =~= src@.subrange(
                fs as int,
                b as int - 1,
            ));
            b = b - 1;
        }
        let mut text = String::new();
        if a == k {
            push_char(&mut text, '0');
        } else {
            push_range(&mut text, src, a, k);
        }
        if b > fs {
            push_char(&mut text, '.');
            push_range(&mut text, src, fs, b);
        }
        proof {
            let w = src@.subrange(a as int, k as int);
            let f = src@.subrange(fs as int, b as int);
            if a == k {
                assert(w =~= Seq::<char>::empty());
            } else {
                assert(w[0] != '0');
            }
            if b > fs {
                assert(f.last() != '0');
            } else {
                assert(f =~= Seq::<char>::empty());
            }
            assert(strip_leading_zeros(w) == w);
            assert(strip_trailing_zeros(f) == f);
            assert(text@ =~= canonical_decimal(whole, fraction));
            assert forall|i: int| 0 <= i < whole.len() implies is_digit(#[trigger] whole[i]) by {
                assert(whole[i] == src@[start + i]);
            }
            assert forall|i: int| 0 <= i < fraction.len() implies is_digit(
                #[trigger] fraction[i],
            ) by {
                assert(fraction[i] == src@[fs + i]);
            }
            lemma_canonical_decimal(whole, fraction);
        }
        Number { text }
    }

    /// The number written by `text`, when `text` is exactly one number
    /// literal (digits, optionally followed by `.` and more digits).
    pub fn from_text(text: &str) -> (r: Option<Number>)
        ensures
            r is Some <==> is_number_text(text@),
            r is Some ==> r->Some_0@ == number_value(text@, 0, text@.len() as int),
            r is Some ==> r->Some_0.wf(),
    {
        let cs = chars_of(text);
        if cs.len() == 0 || !is_digit_char(cs[0]) {
            return None;
        }
        let end = number_end_at(&cs, 0);
        if end != cs.len() {
            return None;
        }
        Some(Number::from_lexeme(&cs, 0, end))
    }

    /// The canonical text, which is also the display form.
    pub fn as_str(&self) -> (r: &str)
        ensures
            r@ == self@,
    {
        self.text.as_str()
    }
}

pub fn is_digit_char(c: char) -> (r: bool)
    ensures
        r == is_digit(c),
{
    c >= '0' && c <= '9'
}

/// Where the run of digits that starts at `i` ends.
pub fn digit_end_at(src: &Vec<char>, i: usize) -> (r: usize)
    requires
        i <= src@.len(),
    ensures
        r == digit_end(src@, i as int),
{
    let mut k = i;
    while k < src.len() && is_digit_char(src[k])
        invariant
            i <= k <= src@.len(),
            digit_end(src@, k as int) == digit_end(src@, i as int),
        decreases src@.len() - k,
    {
        k = k + 1;
    }
    k
}

/// Where the number literal that starts at `i` ends.
pub fn number_end_at(src: &Vec<char>, i: usize) -> (r: usize)
    requires
        i <= src@.len(),
    ensures
        r == number_end(src@, i as int),
{
    let k = digit_end_at(src, i);
    proof {
        lemma_digit_end_bounds(src@, i as int);
    }
    if k < src.len() && k + 1 < src.len() && src[k] == '.' && is_digit_char(src[k + 1]) {
        digit_end_at(src, k + 1)
    } else {
        k
    }
}

} // verus!

verus! {

impl Number {
    /// A copy of this number.
    pub fn duplicate(&self) -> (r: Number)
        ensures
            r@ == self@,
    {
        Number { text: self.text.clone() }
    }
}

/// The value a literal expression stands for.
#[derive(Clone, Debug, PartialEq)]
pub enum Object {
    Num(Number),
    String(String),
    Nil,
    True,
    False,
}

/// What an [`Object`] holds, as mathematical values.
pub enum ObjectModel {
    Num(Seq<char>),
    Str(Seq<char>),
    Nil,
    True,
    False,
}

impl View for Object {
    type V = ObjectModel;

    open spec fn view(&self) -> ObjectModel {
        match self {
            Object::Num(n) => ObjectModel::Num(n@),
            Object::String(s) => ObjectModel::Str(s@),
            Object::Nil => ObjectModel::Nil,
            Object::True => ObjectModel::True,
            Object::False => ObjectModel::False,
        }
    }
}

/// Display form of a value: a number as its decimal text, a string between
/// double quotes, and `nil`, `true`, `false` by name.
pub open spec fn display(v: ObjectModel) -> Seq<char> {
    match v {
        ObjectModel::Num(t) => t,
        ObjectModel::Str(s) => seq!['"'] + s + seq!['"'],
        ObjectModel::Nil => seq!['n', 'i', 'l'],
        ObjectModel::True => seq!['t', 'r', 'u', 'e'],
        ObjectModel::False => seq!['f', 'a', 'l', 's', 'e'],
    }
}

impl Object {
    /// A copy of this value.
    pub fn duplicate(&self) -> (r: Object)
        ensures
            r@ == self@,
    {
        match self {
            Object::Num(n) => Object::Num(n.duplicate()),
            Object::String(s) => Object::String(s.clone()),
            Object::Nil => Object::Nil,
            Object::True => Object::True,
            Object::False => Object::False,
        }
    }

    /// Appends the display form of this value to `out`.
    pub fn write_display(&self, out: &mut String)
        ensures
            final(out)@ == old(out)@ + display(self@),
    {
        match self {
            Object::Num(n) => {
                push_str(out, n.as_str());
            },
            Object::String(s) => {
                push_char(out, '"');
                push_str(out, s.as_str());
                push_char(out, '"');
                assert(out@ =~= old(out)@ + display(self@));
            },
            Object::Nil => {
                push_str(out, "nil");
                proof {
                    reveal_strlit("nil");
                }
                assert(out@ =~= old(out)@ + display(self@));
            },
            Object::True => {
                push_str(out, "true");
                proof {
                    reveal_strlit("true");
                }
                assert(out@ =~= old(out)@ + display(self@));
            },
            Object::False => {
                push_str(out, "false");
                proof {
                    reveal_strlit("false");
                }
                assert(out@ =~= old(out)@ + display(self@));
            },
        }
    }

    /// The display form of this value.
    pub fn display(&self) -> (r: String)
        ensures
            r@ == display(self@),
    {
        let mut out = String::new();
        self.write_display(&mut out);
        assert(out@ =~= display(self@));
        out
    }
}

} // verus!
