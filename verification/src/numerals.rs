//! Numerals of floating-point numbers.

use vstd::prelude::*;

use crate::text::{
    self, ascii_lower, chars_of, concat2, find_char, parses_as_float, same, string_of_range,
};

verus! {

/// The digits of the least number that is too great for a floating-point number of
/// 64 bits: all from it on round to infinity.
pub open spec fn least_infinite() -> Seq<char> {
    "179769313486231580793728971405303415079934132710037826936173778980444968292764750946649017977587207096330286416692887910946555547851940402630657488671505820681908902000708383676273854845817711531764475730270069855571366959622842914819860834936475292719074168444365510704342711559699508093042880177904174497792"@
}

/// How many digits that number has.
pub const INFINITE_DIGITS: i128 = 309;

/// A numeral in small letters and without its sign.
pub open spec fn unsigned_numeral(s: Seq<char>) -> Seq<char> {
    let t = text::lower(s);
    if t.len() > 0 && (t[0] == '+' || t[0] == '-') {
        t.skip(1)
    } else {
        t
    }
}

/// The number that an exponent denotes.
pub open spec fn exponent_value(s: Seq<char>) -> int {
    if s.len() > 0 && s[0] == '-' {
        -(text::digits_value(s.skip(1)) as int)
    } else if s.len() > 0 && s[0] == '+' {
        text::digits_value(s.skip(1)) as int
    } else {
        text::digits_value(s) as int
    }
}

/// How many zeros stand at the head of `s` from `i` on.
pub open spec fn zeros_from(s: Seq<char>, i: int) -> int
    decreases s.len() - i,
{
    if 0 <= i < s.len() && s[i] == '0' {
        1 + zeros_from(s, i + 1)
    } else {
        0
    }
}

/// Whether the digits `a` behind a point make a smaller number than the digits `b`
/// behind a point, where both agree before `i`.
pub open spec fn precedes(a: Seq<char>, b: Seq<char>, i: int) -> bool
    decreases b.len() - i,
{
    if i < 0 || i >= b.len() {
        false
    } else {
        let x = if i < a.len() {
            a[i]
        } else {
            '0'
        };
        if x == b[i] {
            precedes(a, b, i + 1)
        } else {
            x < b[i]
        }
    }
}

/// The digits of a numeral without its sign, and where the point stands in them.
pub open spec fn scientific(t: Seq<char>) -> (Seq<char>, int) {
    let n = text::first_of(t, 'e');
    let head = t.take(n);
    let shift = if n == t.len() {
        0
    } else {
        exponent_value(t.skip(n + 1))
    };
    let dot = text::first_of(head, '.');
    let part = if dot < head.len() {
        head.skip(dot + 1)
    } else {
        Seq::empty()
    };
    (head.take(dot) + part, dot + shift)
}

/// Whether digits with a point make a number that does not round to infinity.
pub open spec fn below_infinity(digits: Seq<char>, point: int) -> bool {
    let zeros = zeros_from(digits, 0);
    let body = digits.skip(zeros);
    ||| body.len() == 0
    ||| point - zeros < INFINITE_DIGITS
    ||| point - zeros == INFINITE_DIGITS && precedes(body, least_infinite(), 0)
}

/// Whether a text is the numeral of a finite floating-point number of 64 bits.
pub open spec fn is_finite_numeral(s: Seq<char>) -> bool {
    let t = unsigned_numeral(s);
    &&& text::is_float(s)
    &&& t != "inf"@
    &&& t != "infinity"@
    &&& t != "nan"@
    &&& below_infinity(scientific(t).0, scientific(t).1)
}

/// How far behind the point the digits of a number begin from where on the number
/// rounds to zero.
pub const VANISHING_POINT: i128 = -324;

/// A number that a numeral denotes.
pub enum NumberModel {
    NotANumber,
    Infinite { negative: bool },
    Zero,
    Decimal { negative: bool, digits: Seq<char>, point: int },
}

/// Digits without the zeros at their end.
pub open spec fn without_trailing_zeros(digits: Seq<char>) -> Seq<char>
    decreases digits.len(),
{
    if digits.len() > 0 && digits.last() == '0' {
        without_trailing_zeros(digits.drop_last())
    } else {
        digits
    }
}

/// The number that a numeral denotes: its sign, its digits from the first to the
/// last that is not zero, and where the point stands before or behind the first.
/// Numbers that are too great for 64 bits are infinite, and those that are too
/// small are zero, whatever their sign.
pub open spec fn number_of(s: Seq<char>) -> NumberModel {
    let t = unsigned_numeral(s);
    let negative = s.len() > 0 && s[0] == '-';
    let (digits, point) = scientific(t);
    let zeros = zeros_from(digits, 0);
    if t == "nan"@ {
        NumberModel::NotANumber
    } else if t == "inf"@ || t == "infinity"@ {
        NumberModel::Infinite { negative }
    } else if digits.skip(zeros).len() == 0 {
        NumberModel::Zero
    } else if !below_infinity(digits, point) {
        NumberModel::Infinite { negative }
    } else if point - zeros <= VANISHING_POINT {
        NumberModel::Zero
    } else {
        NumberModel::Decimal {
            negative,
            digits: without_trailing_zeros(digits.skip(zeros)),
            point: point - zeros,
        }
    }
}

/// Whether two numerals denote the same number; what is not a number is the same
/// as nothing, and texts that are no numerals are compared as they are.
pub open spec fn same_numbers(a: Seq<char>, b: Seq<char>) -> bool {
    if text::is_float(a) && text::is_float(b) {
        number_of(a) == number_of(b) && number_of(a) !is NotANumber
    } else {
        a == b
    }
}

/// Exponents from here on decide alone.
pub const GREAT_EXPONENT: i128 = 1000000000000000000000000000000;

fn capped_digits(v: &Vec<char>, from: usize) -> (r: i128)
    requires
        from <= v@.len(),
        forall|i: int| from <= i < v@.len() ==> text::is_digit(#[trigger] v@[i]),
    ensures
        0 <= r < GREAT_EXPONENT * 11,
        r < GREAT_EXPONENT ==> r == text::digits_value(v@.skip(from as int)),
        r >= GREAT_EXPONENT ==> text::digits_value(v@.skip(from as int)) >= GREAT_EXPONENT,
{
    let ghost all = v@.skip(from as int);
    let mut value: i128 = 0;
    let mut i: usize = from;
    assert(all.take(0) =~= Seq::<char>::empty());
    while i < v.len()
        invariant
            from <= i <= v@.len(),
            all == v@.skip(from as int),
            forall|k: int| from <= k < v@.len() ==> text::is_digit(#[trigger] v@[k]),
            0 <= value < GREAT_EXPONENT * 11,
            value < GREAT_EXPONENT ==> value == text::digits_value(all.take(i - from)),
            value >= GREAT_EXPONENT ==> text::digits_value(all.take(i - from)) >= GREAT_EXPONENT,
        decreases v@.len() - i,
    {
        let ghost now = all.take(i - from + 1);
        assert(now.drop_last() =~= all.take(i - from));
        assert(now.last() == v@[i as int]);
        assert(text::is_digit(v@[i as int]));
        let d: u32 = v[i] as u32 - '0' as u32;
        if value < GREAT_EXPONENT {
            value = value * 10 + d as i128;
        }
        i = i + 1;
    }
    assert(all.take(v@.len() - from) =~= all);
    value
}

fn capped_exponent(s: &str) -> (r: i128)
    requires
        text::is_exponent(s@),
    ensures
        -11 * GREAT_EXPONENT <= r <= 11 * GREAT_EXPONENT,
        -GREAT_EXPONENT < r < GREAT_EXPONENT ==> r == exponent_value(s@),
        r >= GREAT_EXPONENT ==> exponent_value(s@) >= GREAT_EXPONENT,
        r <= -GREAT_EXPONENT ==> exponent_value(s@) <= -GREAT_EXPONENT,
{
    let v = chars_of(s);
    assert(v@ == s@);
    if v[0] == '-' {
        proof {
            let body = s@.skip(1);
            assert(!text::is_digit(s@[0]));
            assert forall|i: int| 1 <= i < v@.len() implies text::is_digit(#[trigger] v@[i]) by {
                assert(body[i - 1] == v@[i]);
            }
        }
        -capped_digits(&v, 1)
    } else if v[0] == '+' {
        proof {
            let body = s@.skip(1);
            assert(!text::is_digit(s@[0]));
            assert forall|i: int| 1 <= i < v@.len() implies text::is_digit(#[trigger] v@[i]) by {
                assert(body[i - 1] == v@[i]);
            }
        }
        capped_digits(&v, 1)
    } else {
        assert(v@.skip(0) =~= v@);
        capped_digits(&v, 0)
    }
}

fn leads(a: &Vec<char>, from: usize, b: &Vec<char>) -> (r: bool)
    requires
        from <= a@.len(),
    ensures
        r == precedes(a@.skip(from as int), b@, 0),
{
    let ghost body = a@.skip(from as int);
    let mut i: usize = 0;
    while i < b.len()
        invariant
            i <= b@.len(),
            from <= a@.len(),
            body == a@.skip(from as int),
            precedes(body, b@, 0) == precedes(body, b@, i as int),
        decreases b@.len() - i,
    {
        let x: char = if i < a.len() - from {
            a[from + i]
        } else {
            '0'
        };
        if x != b[i] {
            return x < b[i];
        }
        i = i + 1;
    }
    false
}

/// A number that a numeral denotes.
#[derive(Debug)]
enum Number {
    NotANumber,
    Infinite { negative: bool },
    Zero,
    Decimal { negative: bool, digits: Vec<char>, point: i128 },
}

impl View for Number {
    type V = NumberModel;

    closed spec fn view(&self) -> NumberModel {
        match self {
            Number::NotANumber => NumberModel::NotANumber,
            Number::Infinite { negative } => NumberModel::Infinite { negative: *negative },
            Number::Zero => NumberModel::Zero,
            Number::Decimal { negative, digits, point } => NumberModel::Decimal {
                negative: *negative,
                digits: digits@,
                point: *point as int,
            },
        }
    }
}

fn significant_digits(digits: &Vec<char>, from: usize) -> (r: Vec<char>)
    requires
        from <= digits@.len(),
    ensures
        r@ == without_trailing_zeros(digits@.skip(from as int)),
{
    let ghost body = digits@.skip(from as int);
    let mut to: usize = digits.len();
    assert(body.take(to - from) =~= body);
    while to > from && digits[to - 1] == '0'
        invariant
            from <= to <= digits@.len(),
            body == digits@.skip(from as int),
            without_trailing_zeros(body) == without_trailing_zeros(body.take(to - from)),
        decreases to,
    {
        assert(body.take(to - from).last() == digits@[to - 1]);
        assert(body.take(to - from).drop_last() =~= body.take(to - 1 - from));
        to = to - 1;
    }
    let kept = string_of_range(digits, from, to);
    assert(kept@ =~= body.take(to - from));
    assert(to > from ==> body.take(to - from).last() == digits@[to - 1]);
    chars_of(&kept)
}

fn read_number(s: &str) -> (r: Number)
    requires
        text::is_float(s@),
    ensures
        r@ == number_of(s@),
{
    let given = chars_of(s);
    let negative = given.len() > 0 && given[0] == '-';
    let small = ascii_lower(s);
    let u = chars_of(&small);
    let from: usize = if u.len() > 0 && (u[0] == '+' || u[0] == '-') {
        1
    } else {
        0
    };
    let body = string_of_range(&u, from, u.len());
    let ghost t = unsigned_numeral(s@);
    assert(body@ =~= t);
    if same(&body, "nan") {
        return Number::NotANumber;
    }
    if same(&body, "inf") || same(&body, "infinity") {
        return Number::Infinite { negative };
    }
    let v = chars_of(&body);
    let n: usize = find_char(&v, 'e');
    let head = string_of_range(&v, 0, n);
    assert(head@ =~= t.take(n as int));
    let shift: i128 = if n == v.len() {
        0
    } else {
        let tail = string_of_range(&v, n + 1, v.len());
        assert(tail@ =~= t.skip(n + 1));
        capped_exponent(&tail)
    };
    let h = chars_of(&head);
    let dot: usize = find_char(&h, '.');
    let whole = string_of_range(&h, 0, dot);
    assert(whole@ =~= head@.take(dot as int));
    let part = if dot < h.len() {
        let part = string_of_range(&h, dot + 1, h.len());
        assert(part@ =~= head@.skip(dot + 1));
        part
    } else {
        let part = String::new();
        assert(part@ =~= Seq::<char>::empty());
        part
    };
    let digits = chars_of(&concat2(&whole, &part));
    assert(digits@ == scientific(t).0);
    let mut zeros: usize = 0;
    while zeros < digits.len() && digits[zeros] == '0'
        invariant
            zeros <= digits@.len(),
            zeros_from(digits@, 0) == zeros + zeros_from(digits@, zeros as int),
        decreases digits@.len() - zeros,
    {
        zeros = zeros + 1;
    }
    assert(zeros == zeros_from(digits@, 0));
    assert(digits@.skip(zeros as int).len() == digits@.len() - zeros);
    if zeros == digits.len() {
        return Number::Zero;
    }
    if shift >= GREAT_EXPONENT {
        return Number::Infinite { negative };
    }
    if shift <= -GREAT_EXPONENT {
        return Number::Zero;
    }
    let point: i128 = dot as i128 + shift - zeros as i128;
    let finite = if point < INFINITE_DIGITS {
        true
    } else if point == INFINITE_DIGITS {
        let limit = chars_of(
            "179769313486231580793728971405303415079934132710037826936173778980444968292764750946649017977587207096330286416692887910946555547851940402630657488671505820681908902000708383676273854845817711531764475730270069855571366959622842914819860834936475292719074168444365510704342711559699508093042880177904174497792",
        );
        leads(&digits, zeros, &limit)
    } else {
        false
    };
    if !finite {
        Number::Infinite { negative }
    } else if point <= VANISHING_POINT {
        Number::Zero
    } else {
        Number::Decimal { negative, digits: significant_digits(&digits, zeros), point }
    }
}

/// Whether a text is the numeral of a finite floating-point number of 64 bits.
pub fn finite_numeral(s: &str) -> (r: bool)
    ensures
        r == is_finite_numeral(s@),
{
    if !parses_as_float(s) {
        return false;
    }
    match read_number(s) {
        Number::NotANumber => false,
        Number::Infinite { .. } => false,
        _ => true,
    }
}

fn same_digits(a: &Vec<char>, b: &Vec<char>) -> (r: bool)
    ensures
        r == (a@ == b@),
{
    if a.len() != b.len() {
        return false;
    }
    let mut i: usize = 0;
    while i < a.len()
        invariant
            i <= a@.len(),
            a@.len() == b@.len(),
            forall|k: int| 0 <= k < i ==> #[trigger] a@[k] == b@[k],
        decreases a@.len() - i,
    {
        if a[i] != b[i] {
            return false;
        }
        i = i + 1;
    }
    assert(a@ =~= b@);
    true
}

/// Whether two numerals denote the same number.
pub fn same_numerals(a: &str, b: &str) -> (r: bool)
    ensures
        r == same_numbers(a@, b@),
{
    if !parses_as_float(a) || !parses_as_float(b) {
        return same(a, b);
    }
    match (read_number(a), read_number(b)) {
        (Number::Infinite { negative: x }, Number::Infinite { negative: y }) => x == y,
        (Number::Zero, Number::Zero) => true,
        (
            Number::Decimal { negative: x, digits: d, point: p },
            Number::Decimal { negative: y, digits: e, point: q },
        ) => x == y && p == q && same_digits(&d, &e),
        _ => false,
    }
}

// ---------------------------------------------------------------------------
// Laws
// ---------------------------------------------------------------------------

/// Zeros behind a number with a point, or a shift of the point that the exponent takes
/// back, leave its value as it is; the sign tells two numbers apart.
pub proof fn signs_and_zeros_are_read(digits: Seq<char>)
    requires
        text::all_digits(digits),
    ensures
        unsigned_numeral(seq!['-'] + digits) == digits,
        unsigned_numeral(seq!['+'] + digits) == digits,
        unsigned_numeral(digits) == digits,
        scientific(digits) == (digits, digits.len() as int),
        scientific(digits.push('.')) == (digits, digits.len() as int),
        number_of(seq!['+'] + digits) == number_of(digits),
        number_of(digits) matches NumberModel::Decimal { negative, .. } ==> !negative,
        number_of(seq!['-'] + digits) matches NumberModel::Decimal { negative, .. } ==> negative,
        number_of(seq!['-'] + digits) is Zero <==> number_of(digits) is Zero,
{
    reveal_strlit("nan");
    reveal_strlit("inf");
    reveal_strlit("infinity");
    lemma_plain_digits(digits);
    let minus = seq!['-'] + digits;
    let plus = seq!['+'] + digits;
    assert(minus[0] == '-' && plus[0] == '+');
    assert(text::lower(minus).skip(1) =~= text::lower(digits));
    assert(text::lower(plus).skip(1) =~= text::lower(digits));
    assert(text::lower(minus)[0] == '-');
    assert(text::lower(plus)[0] == '+');
    assert(text::is_digit(digits[0]));
    assert("nan"@[0] == 'n' && "inf"@[0] == 'i' && "infinity"@[0] == 'i');
}

proof fn lemma_plain_digits(digits: Seq<char>)
    requires
        text::all_digits(digits),
    ensures
        text::lower(digits) == digits,
        unsigned_numeral(digits) == digits,
        scientific(digits) == (digits, digits.len() as int),
        scientific(digits.push('.')) == (digits, digits.len() as int),
{
    assert forall|i: int| 0 <= i < digits.len() implies #[trigger] text::lower(digits)[i]
        == digits[i] by {
        assert(text::is_digit(digits[i]));
    }
    assert(text::lower(digits) =~= digits);
    assert(text::is_digit(digits[0]));
    assert forall|i: int| 0 <= i < digits.len() implies #[trigger] digits[i] != 'e' && digits[i]
        != '.' by {
        assert(text::is_digit(digits[i]));
    }
    let n = digits.len() as int;
    text::lemma_first_of(digits, 'e');
    text::lemma_first_of(digits, '.');
    assert(text::first_of(digits, 'e') == n);
    assert(text::first_of(digits, '.') == n);
    assert(digits.take(n) =~= digits);
    assert(digits + Seq::<char>::empty() =~= digits);
    let dotted = digits.push('.');
    text::lemma_first_of(dotted, 'e');
    assert(text::first_of(dotted, 'e') == n + 1);
    assert(dotted.take(n + 1) =~= dotted);
    text::lemma_first_of_unique(dotted, '.', n);
    assert(dotted.take(n) =~= digits);
    assert(dotted.skip(n + 1) =~= Seq::<char>::empty());
}

/// The exponent is its digits with their sign.
pub proof fn exponents_have_their_sign(n: nat)
    ensures
        exponent_value(text::decimal(n)) == n,
        exponent_value(seq!['+'] + text::decimal(n)) == n,
        exponent_value(seq!['-'] + text::decimal(n)) == -(n as int),
{
    text::digits_have_their_value(n);
    let digits = text::decimal(n);
    assert(text::is_digit(digits[0]));
    assert((seq!['+'] + digits).skip(1) =~= digits);
    assert((seq!['-'] + digits).skip(1) =~= digits);
}

/// Dropping zeros at the end drops nothing else, and all of them; so does counting those
/// at the beginning.
pub proof fn outer_zeros_are_dropped(digits: Seq<char>)
    ensures
        ({
            let kept = without_trailing_zeros(digits);
            let zeros = zeros_from(digits, 0);
            &&& kept.len() <= digits.len()
            &&& kept == digits.take(kept.len() as int)
            &&& kept.len() > 0 ==> kept.last() != '0'
            &&& forall|i: int| kept.len() <= i < digits.len() ==> #[trigger] digits[i] == '0'
            &&& 0 <= zeros <= digits.len()
            &&& forall|i: int| 0 <= i < zeros ==> #[trigger] digits[i] == '0'
            &&& zeros < digits.len() ==> digits[zeros] != '0'
        }),
    decreases digits.len(),
{
    lemma_zeros_counted(digits, 0);
    let kept = without_trailing_zeros(digits);
    if digits.len() > 0 && digits.last() == '0' {
        outer_zeros_are_dropped(digits.drop_last());
        assert(digits.drop_last().take(kept.len() as int) =~= digits.take(kept.len() as int));
        assert forall|i: int| kept.len() <= i < digits.len() implies #[trigger] digits[i]
            == '0' by {
            if i < digits.len() - 1 {
                assert(digits.drop_last()[i] == digits[i]);
            }
        }
    } else {
        assert(digits.take(digits.len() as int) =~= digits);
    }
}

proof fn lemma_zeros_counted(digits: Seq<char>, from: int)
    requires
        0 <= from <= digits.len(),
    ensures
        0 <= zeros_from(digits, from) <= digits.len() - from,
        forall|i: int|
            from <= i < from + zeros_from(digits, from) ==> #[trigger] digits[i] == '0',
        from + zeros_from(digits, from) < digits.len() ==> digits[from + zeros_from(digits, from)]
            != '0',
    decreases digits.len() - from,
{
    if from < digits.len() && digits[from] == '0' {
        lemma_zeros_counted(digits, from + 1);
    }
}

/// The three words are numbers without a finite value, in any case of their letters and
/// with a sign.
pub proof fn words_are_not_finite(s: Seq<char>)
    ensures
        unsigned_numeral(s) == "nan"@ ==> number_of(s) is NotANumber && !is_finite_numeral(s),
        unsigned_numeral(s) == "inf"@ || unsigned_numeral(s) == "infinity"@ ==> number_of(s) == (
        NumberModel::Infinite { negative: s.len() > 0 && s[0] == '-' }) && !is_finite_numeral(s),
        is_finite_numeral(s) ==> text::is_float(s) && !(number_of(s) is Infinite) && !(number_of(s)
            is NotANumber),
{
    reveal_strlit("nan");
    reveal_strlit("inf");
    reveal_strlit("infinity");
    assert("nan"@.len() == 3);
    assert("inf"@.len() == 3);
    assert("infinity"@.len() == 8);
    assert("nan"@[0] != "inf"@[0]);
}

/// Numbers are the same where their values are, however they are written; one that is no
/// number is never the same as one, and other texts only as themselves.
pub proof fn same_numbers_have_one_value(a: Seq<char>, b: Seq<char>, c: Seq<char>)
    ensures
        same_numbers(a, b) == same_numbers(b, a),
        same_numbers(a, b) && same_numbers(b, c) ==> same_numbers(a, c),
        text::is_float(a) && number_of(a) is NotANumber ==> (text::is_float(b) ==> !same_numbers(a, b)),
        !text::is_float(a) ==> (same_numbers(a, b) <==> a == b),
        text::is_float(a) && !(number_of(a) is NotANumber) ==> same_numbers(a, a),
{
}

/// More digits before the point than the largest number has make a number infinite, and
/// fewer never do.
pub proof fn large_numbers_are_infinite(digits: Seq<char>, point: int)
    requires
        digits.len() > 0,
        digits[0] != '0',
    ensures
        point < 309 ==> below_infinity(digits, point),
        point > 309 ==> !below_infinity(digits, point),
{
    assert(zeros_from(digits, 0) == 0);
    assert(digits.skip(0) =~= digits);
}

/// Of two numerals with the point at one place, the first different digit decides which
/// is the smaller, and missing digits count as zeros.
pub proof fn first_different_digit_decides(a: Seq<char>, b: Seq<char>, i: int)
    requires
        0 <= i < b.len(),
        i < a.len(),
        forall|k: int| 0 <= k < i ==> a[k] == #[trigger] b[k],
    ensures
        a[i] < b[i] ==> precedes(a, b, 0),
        a[i] > b[i] ==> !precedes(a, b, 0),
        !precedes(b, b, 0),
{
    lemma_same_digits(a, b, 0, i);
    lemma_same_digits(b, b, 0, b.len() as int);
}

proof fn lemma_same_digits(a: Seq<char>, b: Seq<char>, from: int, i: int)
    requires
        0 <= from <= i <= b.len(),
        i <= a.len(),
        forall|k: int| 0 <= k < i ==> a[k] == #[trigger] b[k],
    ensures
        precedes(a, b, from) == precedes(a, b, i),
    decreases i - from,
{
    if from < i {
        assert(a[from] == b[from]);
        lemma_same_digits(a, b, from + 1, i);
    }
}

/// A numeral of digits has the value of its digits without the zeros around them, with
/// the point where it stands among them.
pub proof fn digits_make_decimals(digits: Seq<char>)
    requires
        text::all_digits(digits),
        digits[0] != '0',
        digits.len() < 309,
    ensures
        number_of(digits) == (NumberModel::Decimal {
            negative: false,
            digits: without_trailing_zeros(digits),
            point: digits.len() as int,
        }),
        number_of(seq!['-'] + digits) == (NumberModel::Decimal {
            negative: true,
            digits: without_trailing_zeros(digits),
            point: digits.len() as int,
        }),
        number_of(seq!['0'] + digits) == number_of(digits),
{
    reveal_strlit("nan");
    reveal_strlit("inf");
    reveal_strlit("infinity");
    signs_and_zeros_are_read(digits);
    assert("nan"@[0] == 'n' && "inf"@[0] == 'i' && "infinity"@[0] == 'i');
    assert(text::is_digit(digits[0]));
    assert(zeros_from(digits, 0) == 0);
    assert(digits.skip(0) =~= digits);
    let minus = seq!['-'] + digits;
    assert(minus[0] == '-');
    let longer = seq!['0'] + digits;
    assert forall|i: int| 0 <= i < longer.len() implies text::is_digit(#[trigger] longer[i]) by {
        if i > 0 {
            assert(longer[i] == digits[i - 1]);
        }
    }
    signs_and_zeros_are_read(longer);
    assert(longer[0] == '0');
    assert(longer[1] == digits[0]);
    assert(zeros_from(longer, 1) == 0);
    assert(zeros_from(longer, 0) == 1);
    assert(longer.skip(1) =~= digits);
}

/// A number whose first digit stands too far behind the point is nothing, and one whose
/// first digit stands nearer is not.
pub proof fn tiny_numbers_vanish(s: Seq<char>)
    requires
        unsigned_numeral(s) != "nan"@,
        unsigned_numeral(s) != "inf"@,
        unsigned_numeral(s) != "infinity"@,
    ensures
        ({
            let (digits, point) = scientific(unsigned_numeral(s));
            let first = point - zeros_from(digits, 0);
            let solid = zeros_from(digits, 0) < digits.len();
            &&& !solid ==> number_of(s) is Zero
            &&& solid && first <= -324 ==> number_of(s) is Zero
            &&& solid && -324 < first < 309 ==> number_of(s) is Decimal
            &&& solid && first > 309 ==> number_of(s) is Infinite
        }),
{
    let (digits, point) = scientific(unsigned_numeral(s));
    lemma_zeros_counted(digits, 0);
}

} // verus!
